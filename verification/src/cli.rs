//! Command-line parsing: subcommands, row-count options and output-format flags.

use vstd::prelude::*;

use crate::text::{has_prefix, starts_with, text_is};

verus! {

/// The release number shown by `--version` and in the top-level help.
pub open spec fn release_text() -> Seq<char> {
    "0.1.0"@
}

/// One command-line argument: text when it is valid UTF-8, raw bytes otherwise.
#[derive(Debug)]
pub enum OsArg {
    Text(String),
    Raw(Vec<u8>),
}

/// The mathematical value of an argument.
pub enum ArgView {
    Text(Seq<char>),
    Raw(Seq<u8>),
}

impl View for OsArg {
    type V = ArgView;

    open spec fn view(&self) -> ArgView {
        match self {
            OsArg::Text(s) => ArgView::Text(s@),
            OsArg::Raw(b) => ArgView::Raw(b@),
        }
    }
}

/// The arguments as mathematical values.
pub open spec fn args_view(args: Seq<OsArg>) -> Seq<ArgView> {
    args.map_values(|a: OsArg| a@)
}

/// What to show of the file.
#[derive(Clone, Copy, PartialEq, Eq, Structural, Debug)]
pub enum Mode {
    Cat,
    Head { lines: usize },
    Tail { lines: usize },
    Schema,
}

/// How rows are written.
#[derive(Clone, Copy, PartialEq, Eq, Structural, Debug)]
pub enum OutputFormat {
    Jsonl,
    Table,
}

/// A command that reads a file.
#[derive(Debug)]
pub struct Command {
    mode: Mode,
    output_format: Option<OutputFormat>,
    file: OsArg,
}

pub struct CommandView {
    pub mode: Mode,
    pub output_format: Option<OutputFormat>,
    pub file: ArgView,
}

impl View for Command {
    type V = CommandView;

    closed spec fn view(&self) -> CommandView {
        CommandView { mode: self.mode, output_format: self.output_format, file: self.file@ }
    }
}

impl Command {
    pub fn mode(&self) -> (m: Mode)
        ensures
            m == self@.mode,
    {
        self.mode
    }

    pub fn file(&self) -> (f: &OsArg)
        ensures
            f@ == self@.file,
    {
        &self.file
    }

    /// The format that was asked for, or `default_format` when none was.
    pub fn output_format(&self, default_format: OutputFormat) -> (f: OutputFormat)
        ensures
            f == match self@.output_format {
                Some(chosen) => chosen,
                None => default_format,
            },
    {
        match self.output_format {
            Some(chosen) => chosen,
            None => default_format,
        }
    }
}

/// What the arguments ask for.
#[derive(Debug)]
pub enum Action {
    Help(String),
    Version(String),
    Run(Command),
}

pub enum ActionView {
    Help(Seq<char>),
    Version(Seq<char>),
    Run(CommandView),
}

impl View for Action {
    type V = ActionView;

    open spec fn view(&self) -> ActionView {
        match self {
            Action::Help(h) => ActionView::Help(h@),
            Action::Version(v) => ActionView::Version(v@),
            Action::Run(c) => ActionView::Run(c@),
        }
    }
}

/// A rejected command line: the complaint and the help text to show with it.
#[derive(Debug)]
pub struct UsageError {
    pub message: String,
    pub help: String,
}

pub struct UsageErrorView {
    pub message: Seq<char>,
    pub help: Seq<char>,
}

impl View for UsageError {
    type V = UsageErrorView;

    open spec fn view(&self) -> UsageErrorView {
        UsageErrorView { message: self.message@, help: self.help@ }
    }
}

pub open spec fn parsed_view(r: Result<Action, UsageError>) -> Result<ActionView, UsageErrorView> {
    match r {
        Ok(a) => Ok(a@),
        Err(e) => Err(e@),
    }
}

pub open spec fn usage_view<T>(message: Seq<char>, help: Seq<char>) -> Result<T, UsageErrorView> {
    Err(UsageErrorView { message, help })
}

// ---------------------------------------------------------------------------
// Help texts
// ---------------------------------------------------------------------------

pub open spec fn version_text() -> Seq<char> {
    "parqcat "@ + release_text()
}

pub open spec fn top_help_text() -> Seq<char> {
    "parqcat "@ + release_text()
        + "\n\nUsage:\n  parqcat cat <FILE>\n  parqcat head [-n <N>] <FILE>\n  parqcat tail [-n <N>] <FILE>\n  parqcat schema <FILE>\n\nCommands:\n  cat       Emit every row\n  head      Emit the first N rows\n  tail      Emit the last N rows\n  schema    Show the logical schema\n\nRow output options:\n  -j, --jsonl      Force compact JSONL output\n  -t, --table      Force tabular output\n\nOptions:\n  -h, --help       Show help\n  -V, --version    Show version\n"@
}

pub open spec fn cat_help_text() -> Seq<char> {
    "Usage:\n  parqcat cat <FILE>\n\nOptions:\n  -j, --jsonl    Force compact JSONL output\n  -t, --table    Force tabular output\n  -h, --help     Show help\n"@
}

pub open spec fn schema_help_text() -> Seq<char> {
    "Usage:\n  parqcat schema <FILE>\n\nOptions:\n  -h, --help     Show help\n"@
}

pub open spec fn counted_help_text(name: Seq<char>) -> Seq<char> {
    "Usage:\n  parqcat "@ + name + " <FILE>\n  parqcat "@ + name + " -n <N> <FILE>\n  parqcat "@ + name
        + " --lines <N> <FILE>\n\nOptions:\n  -n, --lines <N>    Number of rows to emit, default 10\n  -j, --jsonl        Force compact JSONL output\n  -t, --table        Force tabular output\n  -h, --help         Show help\n"@
}

pub fn version() -> (v: String)
    ensures
        v@ == version_text(),
{
    let mut v = String::from_str("parqcat ");
    v.append("0.1.0");
    v
}

pub fn top_help() -> (h: String)
    ensures
        h@ == top_help_text(),
{
    let mut h = String::from_str("parqcat ");
    h.append("0.1.0");
    h.append(
        "\n\nUsage:\n  parqcat cat <FILE>\n  parqcat head [-n <N>] <FILE>\n  parqcat tail [-n <N>] <FILE>\n  parqcat schema <FILE>\n\nCommands:\n  cat       Emit every row\n  head      Emit the first N rows\n  tail      Emit the last N rows\n  schema    Show the logical schema\n\nRow output options:\n  -j, --jsonl      Force compact JSONL output\n  -t, --table      Force tabular output\n\nOptions:\n  -h, --help       Show help\n  -V, --version    Show version\n",
    );
    h
}

pub fn cat_help() -> (h: String)
    ensures
        h@ == cat_help_text(),
{
    String::from_str(
        "Usage:\n  parqcat cat <FILE>\n\nOptions:\n  -j, --jsonl    Force compact JSONL output\n  -t, --table    Force tabular output\n  -h, --help     Show help\n",
    )
}

pub fn schema_help() -> (h: String)
    ensures
        h@ == schema_help_text(),
{
    String::from_str("Usage:\n  parqcat schema <FILE>\n\nOptions:\n  -h, --help     Show help\n")
}

pub fn counted_help(name: &str) -> (h: String)
    ensures
        h@ == counted_help_text(name@),
{
    let mut h = String::from_str("Usage:\n  parqcat ");
    h.append(name);
    h.append(" <FILE>\n  parqcat ");
    h.append(name);
    h.append(" -n <N> <FILE>\n  parqcat ");
    h.append(name);
    h.append(
        " --lines <N> <FILE>\n\nOptions:\n  -n, --lines <N>    Number of rows to emit, default 10\n  -j, --jsonl        Force compact JSONL output\n  -t, --table        Force tabular output\n  -h, --help         Show help\n",
    );
    h
}

/// The rejection with `message`, shown together with `help`.
pub fn usage<T>(message: String, help: String) -> (r: Result<T, UsageError>)
    ensures
        r matches Err(e) && e@ == (UsageErrorView { message: message@, help: help@ }),
{
    Err(UsageError { message, help })
}

// ---------------------------------------------------------------------------
// The grammar
// ---------------------------------------------------------------------------

pub open spec fn is_text(a: ArgView, w: Seq<char>) -> bool {
    a == ArgView::Text(w)
}

pub open spec fn is_help_flag(a: ArgView) -> bool {
    is_text(a, "-h"@) || is_text(a, "--help"@)
}

/// A help flag stands before the first `--`.
pub open spec fn asks_for_help(args: Seq<ArgView>) -> bool {
    exists|k: int|
        0 <= k < args.len() && #[trigger] is_help_flag(args[k]) && forall|j: int|
            0 <= j < k ==> !is_text(#[trigger] args[j], "--"@)
}

/// The format that a flag selects, if it is a format flag.
pub open spec fn flag_format(t: Seq<char>) -> Option<OutputFormat> {
    if t == "-j"@ || t == "--jsonl"@ {
        Some(OutputFormat::Jsonl)
    } else if t == "-t"@ || t == "--table"@ {
        Some(OutputFormat::Table)
    } else {
        None
    }
}

/// The format after asking for `wanted`; `None` when another one was asked for before.
pub open spec fn choose_format(current: Option<OutputFormat>, wanted: OutputFormat) -> Option<
    OutputFormat,
> {
    match current {
        Some(existing) => if existing != wanted {
            None
        } else {
            Some(wanted)
        },
        None => Some(wanted),
    }
}

pub open spec fn conflict_text() -> Seq<char> {
    "choose either JSONL or table output, not both"@
}

pub open spec fn unsupported_option_text(t: Seq<char>) -> Seq<char> {
    "unsupported option `"@ + t + "`"@
}

/// Whether `t` is an option that the file-taking commands do not know.
pub open spec fn is_stray_option(t: Seq<char>) -> bool {
    starts_with(t, "-"@) && t != "-"@
}

/// The scan of `cat`'s arguments from position `i`, in the given state.
pub open spec fn scan_common(
    args: Seq<ArgView>,
    i: int,
    format: Option<OutputFormat>,
    positional: Seq<ArgView>,
    done: bool,
    help: Seq<char>,
) -> Result<(Option<OutputFormat>, Seq<ArgView>), UsageErrorView>
    decreases args.len() - i,
{
    if i < 0 || i >= args.len() {
        Ok((format, positional))
    } else if done {
        scan_common(args, i + 1, format, positional.push(args[i]), true, help)
    } else {
        match args[i] {
            ArgView::Text(t) => if t == "--"@ {
                scan_common(args, i + 1, format, positional, true, help)
            } else if flag_format(t) is Some {
                match choose_format(format, flag_format(t).unwrap()) {
                    Some(f) => scan_common(args, i + 1, Some(f), positional, false, help),
                    None => usage_view(conflict_text(), help),
                }
            } else if is_stray_option(t) {
                usage_view(unsupported_option_text(t), help)
            } else {
                scan_common(args, i + 1, format, positional.push(args[i]), false, help)
            },
            ArgView::Raw(_) => scan_common(
                args,
                i + 1,
                format,
                positional.push(args[i]),
                false,
                help,
            ),
        }
    }
}

/// The scan of `schema`'s arguments from position `i`.
pub open spec fn scan_files(
    args: Seq<ArgView>,
    i: int,
    positional: Seq<ArgView>,
    done: bool,
    help: Seq<char>,
) -> Result<Seq<ArgView>, UsageErrorView>
    decreases args.len() - i,
{
    if i < 0 || i >= args.len() {
        Ok(positional)
    } else if done {
        scan_files(args, i + 1, positional.push(args[i]), true, help)
    } else {
        match args[i] {
            ArgView::Text(t) => if t == "--"@ {
                scan_files(args, i + 1, positional, true, help)
            } else if is_stray_option(t) {
                usage_view(unsupported_option_text(t), help)
            } else {
                scan_files(args, i + 1, positional.push(args[i]), false, help)
            },
            ArgView::Raw(_) => scan_files(args, i + 1, positional.push(args[i]), false, help),
        }
    }
}

/// The single file among the positional arguments.
pub open spec fn one_positional(name: Seq<char>, positional: Seq<ArgView>, help: Seq<char>) -> Result<
    ArgView,
    UsageErrorView,
> {
    if positional.len() == 0 {
        usage_view("`"@ + name + "` requires exactly one file path"@, help)
    } else if positional.len() == 1 {
        Ok(positional[0])
    } else {
        usage_view("`"@ + name + "` accepts exactly one file path"@, help)
    }
}

pub open spec fn is_ascii_digit(c: char) -> bool {
    '0' <= c && c <= '9'
}

pub open spec fn all_digits(t: Seq<char>) -> bool {
    forall|k: int| 0 <= k < t.len() ==> is_ascii_digit(#[trigger] t[k])
}

/// The number written by the decimal digits `t`.
pub open spec fn digits_value(t: Seq<char>) -> nat
    decreases t.len(),
{
    if t.len() == 0 {
        0
    } else {
        digits_value(t.drop_last()) * 10 + (t.last() as int - 48) as nat
    }
}

pub open spec fn nonnegative_text() -> Seq<char> {
    "line count must be a non-negative integer"@
}

/// The row count written as `value`, or the complaint about it.
pub open spec fn line_count(value: ArgView) -> Result<usize, Seq<char>> {
    match value {
        ArgView::Raw(_) => Err("line count must be valid UTF-8"@),
        ArgView::Text(t) => if t.len() == 0 || starts_with(t, "+"@) || starts_with(t, "-"@) {
            Err(nonnegative_text())
        } else if all_digits(t) && digits_value(t) <= usize::MAX {
            Ok(digits_value(t) as usize)
        } else {
            Err(nonnegative_text())
        },
    }
}

/// The scan of `head`'s or `tail`'s arguments from position `i`.
pub open spec fn scan_counted(
    args: Seq<ArgView>,
    i: int,
    lines: usize,
    format: Option<OutputFormat>,
    positional: Seq<ArgView>,
    done: bool,
    help: Seq<char>,
) -> Result<(usize, Option<OutputFormat>, Seq<ArgView>), UsageErrorView>
    decreases args.len() - i,
{
    if i < 0 || i >= args.len() {
        Ok((lines, format, positional))
    } else if done {
        scan_counted(args, i + 1, lines, format, positional.push(args[i]), true, help)
    } else {
        match args[i] {
            ArgView::Text(t) => if t == "--"@ {
                scan_counted(args, i + 1, lines, format, positional, true, help)
            } else if t == "-n"@ || t == "--lines"@ {
                if i + 1 >= args.len() {
                    usage_view("`"@ + t + "` requires a value"@, help)
                } else {
                    match line_count(args[i + 1]) {
                        Ok(n) => scan_counted(args, i + 2, n, format, positional, false, help),
                        Err(m) => usage_view(m, help),
                    }
                }
            } else if flag_format(t) is Some {
                match choose_format(format, flag_format(t).unwrap()) {
                    Some(f) => scan_counted(args, i + 1, lines, Some(f), positional, false, help),
                    None => usage_view(conflict_text(), help),
                }
            } else if starts_with(t, "-n="@) {
                match line_count(ArgView::Text(t.skip("-n="@.len() as int))) {
                    Ok(n) => scan_counted(args, i + 1, n, format, positional, false, help),
                    Err(m) => usage_view(m, help),
                }
            } else if starts_with(t, "--lines="@) {
                match line_count(ArgView::Text(t.skip("--lines="@.len() as int))) {
                    Ok(n) => scan_counted(args, i + 1, n, format, positional, false, help),
                    Err(m) => usage_view(m, help),
                }
            } else if starts_with(t, "-"@) {
                usage_view(unsupported_option_text(t), help)
            } else {
                scan_counted(args, i + 1, lines, format, positional.push(args[i]), false, help)
            },
            ArgView::Raw(_) => scan_counted(
                args,
                i + 1,
                lines,
                format,
                positional.push(args[i]),
                false,
                help,
            ),
        }
    }
}

pub open spec fn spec_parse_cat(args: Seq<ArgView>) -> Result<ActionView, UsageErrorView> {
    if asks_for_help(args) {
        Ok(ActionView::Help(cat_help_text()))
    } else {
        match scan_common(args, 0, None, Seq::empty(), false, cat_help_text()) {
            Err(e) => Err(e),
            Ok((format, positional)) => match one_positional("cat"@, positional, cat_help_text()) {
                Err(e) => Err(e),
                Ok(file) => Ok(
                    ActionView::Run(CommandView { mode: Mode::Cat, output_format: format, file }),
                ),
            },
        }
    }
}

pub open spec fn spec_parse_schema(args: Seq<ArgView>) -> Result<ActionView, UsageErrorView> {
    if asks_for_help(args) {
        Ok(ActionView::Help(schema_help_text()))
    } else {
        match scan_files(args, 0, Seq::empty(), false, schema_help_text()) {
            Err(e) => Err(e),
            Ok(positional) => match one_positional("schema"@, positional, schema_help_text()) {
                Err(e) => Err(e),
                Ok(file) => Ok(
                    ActionView::Run(CommandView { mode: Mode::Schema, output_format: None, file }),
                ),
            },
        }
    }
}

pub open spec fn counted_name(tail: bool) -> Seq<char> {
    if tail {
        "tail"@
    } else {
        "head"@
    }
}

pub open spec fn counted_mode(tail: bool, lines: usize) -> Mode {
    if tail {
        Mode::Tail { lines }
    } else {
        Mode::Head { lines }
    }
}

pub open spec fn spec_parse_counted(tail: bool, args: Seq<ArgView>) -> Result<
    ActionView,
    UsageErrorView,
> {
    let name = counted_name(tail);
    let help = counted_help_text(name);
    if asks_for_help(args) {
        Ok(ActionView::Help(help))
    } else {
        match scan_counted(args, 0, 10, None, Seq::empty(), false, help) {
            Err(e) => Err(e),
            Ok((lines, format, positional)) => match one_positional(name, positional, help) {
                Err(e) => Err(e),
                Ok(file) => Ok(
                    ActionView::Run(
                        CommandView { mode: counted_mode(tail, lines), output_format: format, file },
                    ),
                ),
            },
        }
    }
}

/// What a whole command line asks for.
pub open spec fn spec_parse(args: Seq<ArgView>) -> Result<ActionView, UsageErrorView> {
    if args.len() == 0 {
        usage_view("missing subcommand"@, top_help_text())
    } else {
        let rest = args.drop_first();
        match args[0] {
            ArgView::Text(t) => if t == "-h"@ || t == "--help"@ {
                Ok(ActionView::Help(top_help_text()))
            } else if t == "-V"@ || t == "--version"@ {
                Ok(ActionView::Version(version_text()))
            } else if t == "cat"@ {
                spec_parse_cat(rest)
            } else if t == "head"@ {
                spec_parse_counted(false, rest)
            } else if t == "tail"@ {
                spec_parse_counted(true, rest)
            } else if t == "schema"@ {
                spec_parse_schema(rest)
            } else {
                usage_view("unknown subcommand `"@ + t + "`"@, top_help_text())
            },
            ArgView::Raw(_) => usage_view("subcommand must be valid UTF-8"@, top_help_text()),
        }
    }
}

// ---------------------------------------------------------------------------
// The parser
// ---------------------------------------------------------------------------

/// A copy of an argument.
pub fn copy_arg(a: &OsArg) -> (r: OsArg)
    ensures
        r@ == a@,
{
    match a {
        OsArg::Text(s) => OsArg::Text(s.clone()),
        OsArg::Raw(b) => {
            let c = b.clone();
            assert(c@ =~= b@);
            OsArg::Raw(c)
        },
    }
}

/// Whether `a` is the text `w`.
fn arg_is(a: &OsArg, w: &str) -> (b: bool)
    ensures
        b == is_text(a@, w@),
{
    match a {
        OsArg::Text(s) => text_is(s.as_str(), w),
        OsArg::Raw(_) => false,
    }
}

/// The complaint about an unknown option `t`.
fn unsupported_option(t: &str) -> (m: String)
    ensures
        m@ == unsupported_option_text(t@),
{
    let mut m = String::from_str("unsupported option `");
    m.append(t);
    m.append("`");
    m
}

/// Whether the command line asks for help before any `--`.
pub fn contains_help(args: &Vec<OsArg>) -> (b: bool)
    ensures
        b == asks_for_help(args_view(args@)),
{
    let ghost av = args_view(args@);
    let mut i: usize = 0;
    while i < args.len()
        invariant
            av == args_view(args@),
            av.len() == args@.len(),
            i <= args.len(),
            forall|j: int| 0 <= j < i ==> !is_text(#[trigger] av[j], "--"@) && !is_help_flag(av[j]),
        decreases args.len() - i,
    {
        if arg_is(&args[i], "--") {
            assert forall|k: int|
                0 <= k < av.len() && #[trigger] is_help_flag(av[k]) implies exists|j: int|
                0 <= j < k && is_text(#[trigger] av[j], "--"@) by {
                if k < i {
                } else if k == i {
                    reveal_strlit("--");
                    reveal_strlit("-h");
                    reveal_strlit("--help");
                    assert("--"@[1] != "-h"@[1]);
                    assert("--"@.len() != "--help"@.len());
                    assert(false);
                } else {
                    let j = i as int;
                    assert(0 <= j < k && is_text(av[j], "--"@));
                }
            }
            return false;
        }
        if arg_is(&args[i], "-h") || arg_is(&args[i], "--help") {
            assert(is_help_flag(av[i as int]));
            return true;
        }
        i = i + 1;
    }
    false
}

/// The accumulated options of a file-taking command.
struct CommonArgs {
    output_format: Option<OutputFormat>,
    positional: Vec<OsArg>,
}

impl CommonArgs {
    fn set_output_format(&mut self, format: OutputFormat, help: String) -> (r: Result<(), UsageError>)
        ensures
            final(self).positional@ == old(self).positional@,
            match choose_format(old(self).output_format, format) {
                Some(f) => r is Ok && final(self).output_format == Some(f),
                None => r matches Err(e) && e@ == (UsageErrorView {
                    message: conflict_text(),
                    help: help@,
                }) && final(self).output_format == old(self).output_format,
            },
    {
        if let Some(existing) = self.output_format {
            if existing != format {
                return usage(String::from_str("choose either JSONL or table output, not both"), help);
            }
        }
        self.output_format = Some(format);
        Ok(())
    }
}

/// The file among the positional arguments, when there is exactly one.
fn one_file(name: &str, positional: Vec<OsArg>, help: String) -> (r: Result<OsArg, UsageError>)
    ensures
        match one_positional(name@, args_view(positional@), help@) {
            Ok(f) => r matches Ok(g) && g@ == f,
            Err(e) => r matches Err(g) && g@ == e,
        },
{
    let mut positional = positional;
    let ghost pv = args_view(positional@);
    if positional.len() == 0 {
        let mut m = String::from_str("`");
        m.append(name);
        m.append("` requires exactly one file path");
        usage(m, help)
    } else if positional.len() == 1 {
        let f = positional.pop().unwrap();
        Ok(f)
    } else {
        let mut m = String::from_str("`");
        m.append(name);
        m.append("` accepts exactly one file path");
        usage(m, help)
    }
}

/// The arguments of `cat`: format flags and one file.
fn parse_common(name: &str, args: &Vec<OsArg>, help: String) -> (r: Result<
    (Option<OutputFormat>, OsArg),
    UsageError,
>)
    ensures
        match scan_common(args_view(args@), 0, None, Seq::empty(), false, help@) {
            Err(e) => r matches Err(g) && g@ == e,
            Ok((format, positional)) => match one_positional(name@, positional, help@) {
                Ok(f) => r matches Ok((g, h)) && g == format && h@ == f,
                Err(e) => r matches Err(g) && g@ == e,
            },
        },
{
    let ghost av = args_view(args@);
    let mut common = CommonArgs { output_format: None, positional: Vec::new() };
    let mut flags_done = false;
    let mut i: usize = 0;
    assert(args_view(common.positional@) =~= Seq::<ArgView>::empty());
    while i < args.len()
        invariant
            av == args_view(args@),
            av.len() == args@.len(),
            i <= args.len(),
            scan_common(av, 0, None, Seq::empty(), false, help@) == scan_common(
                av,
                i as int,
                common.output_format,
                args_view(common.positional@),
                flags_done,
                help@,
            ),
        decreases args.len() - i,
    {
        let ghost before = args_view(common.positional@);
        let arg = &args[i];
        if flags_done {
            common.positional.push(copy_arg(arg));
            assert(args_view(common.positional@) =~= before.push(av[i as int]));
            i = i + 1;
            continue;
        }
        match arg {
            OsArg::Text(s) => {
                let t = s.as_str();
                if text_is(t, "--") {
                    flags_done = true;
                } else if text_is(t, "-j") || text_is(t, "--jsonl") {
                    common.set_output_format(OutputFormat::Jsonl, help.clone())?;
                } else if text_is(t, "-t") || text_is(t, "--table") {
                    common.set_output_format(OutputFormat::Table, help.clone())?;
                } else if has_prefix(t, "-") && !text_is(t, "-") {
                    return usage(unsupported_option(t), help);
                } else {
                    common.positional.push(copy_arg(arg));
                    assert(args_view(common.positional@) =~= before.push(av[i as int]));
                }
            },
            OsArg::Raw(_) => {
                common.positional.push(copy_arg(arg));
                assert(args_view(common.positional@) =~= before.push(av[i as int]));
            },
        }
        i = i + 1;
    }
    let file = one_file(name, common.positional, help)?;
    Ok((common.output_format, file))
}

/// The arguments of `schema`: one file and no options.
fn parse_file_only(name: &str, args: &Vec<OsArg>, help: String) -> (r: Result<OsArg, UsageError>)
    ensures
        match scan_files(args_view(args@), 0, Seq::empty(), false, help@) {
            Err(e) => r matches Err(g) && g@ == e,
            Ok(positional) => match one_positional(name@, positional, help@) {
                Ok(f) => r matches Ok(g) && g@ == f,
                Err(e) => r matches Err(g) && g@ == e,
            },
        },
{
    let ghost av = args_view(args@);
    let mut positional: Vec<OsArg> = Vec::new();
    let mut flags_done = false;
    let mut i: usize = 0;
    assert(args_view(positional@) =~= Seq::<ArgView>::empty());
    while i < args.len()
        invariant
            av == args_view(args@),
            av.len() == args@.len(),
            i <= args.len(),
            scan_files(av, 0, Seq::empty(), false, help@) == scan_files(
                av,
                i as int,
                args_view(positional@),
                flags_done,
                help@,
            ),
        decreases args.len() - i,
    {
        let ghost before = args_view(positional@);
        let arg = &args[i];
        if flags_done {
            positional.push(copy_arg(arg));
            assert(args_view(positional@) =~= before.push(av[i as int]));
            i = i + 1;
            continue;
        }
        match arg {
            OsArg::Text(s) => {
                let t = s.as_str();
                if text_is(t, "--") {
                    flags_done = true;
                } else if has_prefix(t, "-") && !text_is(t, "-") {
                    return usage(unsupported_option(t), help);
                } else {
                    positional.push(copy_arg(arg));
                    assert(args_view(positional@) =~= before.push(av[i as int]));
                }
            },
            OsArg::Raw(_) => {
                positional.push(copy_arg(arg));
                assert(args_view(positional@) =~= before.push(av[i as int]));
            },
        }
        i = i + 1;
    }
    one_file(name, positional, help)
}

proof fn lemma_prefix_value_le(t: Seq<char>, k: int)
    requires
        all_digits(t),
        0 <= k <= t.len(),
    ensures
        digits_value(t.take(k)) <= digits_value(t),
    decreases t.len(),
{
    if k == t.len() {
        assert(t.take(k) =~= t);
    } else {
        let d = t.drop_last();
        assert(t.take(k) =~= d.take(k));
        assert(all_digits(d)) by {
            assert forall|j: int| 0 <= j < d.len() implies is_ascii_digit(#[trigger] d[j]) by {
                assert(d[j] == t[j]);
            }
        }
        lemma_prefix_value_le(d, k);
    }
}

/// The number written by the decimal digits `t`, when it has only digits and
/// the number fits in `usize`.
fn parse_count(t: &str) -> (r: Option<usize>)
    ensures
        r == (if all_digits(t@) && digits_value(t@) <= usize::MAX {
            Some(digits_value(t@) as usize)
        } else {
            None
        }),
{
    let n = t.unicode_len();
    let mut i: usize = 0;
    while i < n
        invariant
            n == t@.len(),
            i <= n,
            forall|k: int| 0 <= k < i ==> is_ascii_digit(#[trigger] t@[k]),
        decreases n - i,
    {
        let c = t.get_char(i);
        if !('0' <= c && c <= '9') {
            return None;
        }
        i = i + 1;
    }
    assert(all_digits(t@));
    let mut value: usize = 0;
    let mut i: usize = 0;
    assert(t@.take(0) =~= Seq::<char>::empty());
    while i < n
        invariant
            n == t@.len(),
            i <= n,
            all_digits(t@),
            value == digits_value(t@.take(i as int)),
        decreases n - i,
    {
        let c = t.get_char(i);
        assert(is_ascii_digit(t@[i as int]));
        let d: usize = ((c as u32) - 48) as usize;
        let ghost next = t@.take(i + 1);
        assert(next.drop_last() =~= t@.take(i as int));
        assert(digits_value(next) == value * 10 + d);
        match value.checked_mul(10) {
            Some(tens) => match tens.checked_add(d) {
                Some(v) => {
                    value = v;
                },
                None => {
                    proof {
                        lemma_prefix_value_le(t@, i + 1);
                    }
                    return None;
                },
            },
            None => {
                proof {
                    lemma_prefix_value_le(t@, i + 1);
                }
                return None;
            },
        }
        i = i + 1;
    }
    assert(t@.take(n as int) =~= t@);
    Some(value)
}

/// The row count given as `value`.
fn parse_lines(value: &OsArg, help: String) -> (r: Result<usize, UsageError>)
    ensures
        match line_count(value@) {
            Ok(n) => r == Ok::<usize, UsageError>(n),
            Err(m) => r matches Err(e) && e@ == (UsageErrorView { message: m, help: help@ }),
        },
{
    match value {
        OsArg::Raw(_) => usage(String::from_str("line count must be valid UTF-8"), help),
        OsArg::Text(s) => {
            let t = s.as_str();
            if t.unicode_len() == 0 || has_prefix(t, "+") || has_prefix(t, "-") {
                return usage(String::from_str("line count must be a non-negative integer"), help);
            }
            match parse_count(t) {
                Some(n) => Ok(n),
                None => usage(String::from_str("line count must be a non-negative integer"), help),
            }
        },
    }
}

/// The text after the first `skip` characters of `t`, as an argument.
fn text_after(t: &str, skip: usize) -> (r: OsArg)
    requires
        skip <= t@.len(),
    ensures
        r@ == ArgView::Text(t@.skip(skip as int)),
{
    let n = t.unicode_len();
    let rest = t.substring_char(skip, n);
    assert(rest@ =~= t@.skip(skip as int));
    OsArg::Text(String::from_str(rest))
}

/// The arguments of `head` or `tail`: a row count, format flags and one file.
fn parse_counted(tail: bool, args: &Vec<OsArg>) -> (r: Result<Action, UsageError>)
    ensures
        parsed_view(r) == spec_parse_counted(tail, args_view(args@)),
{
    let name: &str = if tail {
        "tail"
    } else {
        "head"
    };
    assert(name@ == counted_name(tail));
    let ghost help = counted_help_text(name@);
    if contains_help(args) {
        return Ok(Action::Help(counted_help(name)));
    }
    let ghost av = args_view(args@);
    let mut lines: usize = 10;
    let mut common = CommonArgs { output_format: None, positional: Vec::new() };
    let mut i: usize = 0;
    let mut flags_done = false;
    assert(args_view(common.positional@) =~= Seq::<ArgView>::empty());
    while i < args.len()
        invariant
            av == args_view(args@),
            av.len() == args@.len(),
            i <= args.len(),
            help == counted_help_text(name@),
            name@ == counted_name(tail),
            !asks_for_help(av),
            scan_counted(av, 0, 10, None, Seq::empty(), false, help) == scan_counted(
                av,
                i as int,
                lines,
                common.output_format,
                args_view(common.positional@),
                flags_done,
                help,
            ),
        decreases args.len() - i,
    {
        let ghost before = args_view(common.positional@);
        let arg = &args[i];
        assert(av[i as int] == args@[i as int]@);
        if flags_done {
            common.positional.push(copy_arg(arg));
            assert(args_view(common.positional@) =~= before.push(av[i as int]));
            i = i + 1;
            continue;
        }
        match arg {
            OsArg::Text(s) => {
                let t = s.as_str();
                if text_is(t, "--") {
                    flags_done = true;
                    i = i + 1;
                } else if text_is(t, "-n") || text_is(t, "--lines") {
                    if i + 1 >= args.len() {
                        let mut m = String::from_str("`");
                        m.append(t);
                        m.append("` requires a value");
                        return usage(m, counted_help(name));
                    }
                    assert(av[i + 1] == args@[i + 1]@);
                    lines = parse_lines(&args[i + 1], counted_help(name))?;
                    i = i + 2;
                } else if text_is(t, "-j") || text_is(t, "--jsonl") {
                    common.set_output_format(OutputFormat::Jsonl, counted_help(name))?;
                    i = i + 1;
                } else if text_is(t, "-t") || text_is(t, "--table") {
                    common.set_output_format(OutputFormat::Table, counted_help(name))?;
                    i = i + 1;
                } else if has_prefix(t, "-n=") {
                    let value = text_after(t, "-n=".unicode_len());
                    lines = parse_lines(&value, counted_help(name))?;
                    i = i + 1;
                } else if has_prefix(t, "--lines=") {
                    let value = text_after(t, "--lines=".unicode_len());
                    lines = parse_lines(&value, counted_help(name))?;
                    i = i + 1;
                } else if has_prefix(t, "-") {
                    return usage(unsupported_option(t), counted_help(name));
                } else {
                    common.positional.push(copy_arg(arg));
                    assert(args_view(common.positional@) =~= before.push(av[i as int]));
                    i = i + 1;
                }
            },
            OsArg::Raw(_) => {
                common.positional.push(copy_arg(arg));
                assert(args_view(common.positional@) =~= before.push(av[i as int]));
                i = i + 1;
            },
        }
    }
    let file = one_file(name, common.positional, counted_help(name))?;
    let mode = if tail {
        Mode::Tail { lines }
    } else {
        Mode::Head { lines }
    };
    Ok(Action::Run(Command { mode, output_format: common.output_format, file }))
}

/// The arguments of `cat`.
fn parse_cat(args: &Vec<OsArg>) -> (r: Result<Action, UsageError>)
    ensures
        parsed_view(r) == spec_parse_cat(args_view(args@)),
{
    if contains_help(args) {
        return Ok(Action::Help(cat_help()));
    }
    let (output_format, file) = parse_common("cat", args, cat_help())?;
    Ok(Action::Run(Command { mode: Mode::Cat, output_format, file }))
}

/// The arguments of `schema`.
fn parse_schema(args: &Vec<OsArg>) -> (r: Result<Action, UsageError>)
    ensures
        parsed_view(r) == spec_parse_schema(args_view(args@)),
{
    if contains_help(args) {
        return Ok(Action::Help(schema_help()));
    }
    let file = parse_file_only("schema", args, schema_help())?;
    Ok(Action::Run(Command { mode: Mode::Schema, output_format: None, file }))
}

/// What the command line (without the program name) asks for.
pub fn parse(args: Vec<OsArg>) -> (r: Result<Action, UsageError>)
    ensures
        parsed_view(r) == spec_parse(args_view(args@)),
{
    let ghost av = args_view(args@);
    if args.len() == 0 {
        return usage(String::from_str("missing subcommand"), top_help());
    }
    let mut args = args;
    let rest = args.split_off(1);
    assert(args_view(rest@) =~= av.drop_first());
    match &args[0] {
        OsArg::Text(s) => {
            let t = s.as_str();
            if text_is(t, "-h") || text_is(t, "--help") {
                Ok(Action::Help(top_help()))
            } else if text_is(t, "-V") || text_is(t, "--version") {
                Ok(Action::Version(version()))
            } else if text_is(t, "cat") {
                parse_cat(&rest)
            } else if text_is(t, "head") {
                parse_counted(false, &rest)
            } else if text_is(t, "tail") {
                parse_counted(true, &rest)
            } else if text_is(t, "schema") {
                parse_schema(&rest)
            } else {
                let mut m = String::from_str("unknown subcommand `");
                m.append(t);
                m.append("`");
                usage(m, top_help())
            }
        },
        OsArg::Raw(_) => usage(String::from_str("subcommand must be valid UTF-8"), top_help()),
    }
}

// ---------------------------------------------------------------------------
// Laws of the command line
// ---------------------------------------------------------------------------

/// The help text of a subcommand.
pub open spec fn subcommand_help_text(name: Seq<char>) -> Seq<char> {
    if name == "cat"@ {
        cat_help_text()
    } else if name == "schema"@ {
        schema_help_text()
    } else {
        counted_help_text(name)
    }
}

pub open spec fn is_subcommand(name: Seq<char>) -> bool {
    name == "cat"@ || name == "head"@ || name == "tail"@ || name == "schema"@
}

/// A command line: the subcommand `name` followed by `rest`.
pub open spec fn command_line(name: Seq<char>, rest: Seq<ArgView>) -> Seq<ArgView> {
    seq![ArgView::Text(name)] + rest
}

proof fn lemma_command_line(name: Seq<char>, rest: Seq<ArgView>)
    ensures
        command_line(name, rest).len() == rest.len() + 1,
        command_line(name, rest)[0] == ArgView::Text(name),
        command_line(name, rest).drop_first() == rest,
{
    assert(command_line(name, rest).drop_first() =~= rest);
}

proof fn lemma_subcommand_names()
    ensures
        "cat"@ != "-h"@,
        "cat"@ != "--help"@,
        "cat"@ != "-V"@,
        "cat"@ != "--version"@,
        "head"@ != "-h"@,
        "head"@ != "--help"@,
        "head"@ != "-V"@,
        "head"@ != "--version"@,
        "head"@ != "cat"@,
        "tail"@ != "-h"@,
        "tail"@ != "--help"@,
        "tail"@ != "-V"@,
        "tail"@ != "--version"@,
        "tail"@ != "cat"@,
        "tail"@ != "head"@,
        "schema"@ != "-h"@,
        "schema"@ != "--help"@,
        "schema"@ != "-V"@,
        "schema"@ != "--version"@,
        "schema"@ != "cat"@,
        "schema"@ != "head"@,
        "schema"@ != "tail"@,
{
    reveal_strlit("cat");
    reveal_strlit("head");
    reveal_strlit("tail");
    reveal_strlit("schema");
    reveal_strlit("-h");
    reveal_strlit("--help");
    reveal_strlit("-V");
    reveal_strlit("--version");
    assert("cat"@[0] != "-h"@[0]);
    assert("cat"@[0] != "--help"@[0]);
    assert("cat"@[0] != "-V"@[0]);
    assert("cat"@[0] != "--version"@[0]);
    assert("head"@[0] != "-h"@[0]);
    assert("head"@[0] != "--help"@[0]);
    assert("head"@[0] != "-V"@[0]);
    assert("head"@[0] != "--version"@[0]);
    assert("head"@[0] != "cat"@[0]);
    assert("tail"@[0] != "-h"@[0]);
    assert("tail"@[0] != "--help"@[0]);
    assert("tail"@[0] != "-V"@[0]);
    assert("tail"@[0] != "--version"@[0]);
    assert("tail"@[0] != "cat"@[0]);
    assert("tail"@[0] != "head"@[0]);
    assert("schema"@[0] != "-h"@[0]);
    assert("schema"@[0] != "--help"@[0]);
    assert("schema"@[0] != "-V"@[0]);
    assert("schema"@[0] != "--version"@[0]);
    assert("schema"@[0] != "cat"@[0]);
    assert("schema"@[0] != "head"@[0]);
    assert("schema"@[0] != "tail"@[0]);
}

/// A help flag before any `--` after a subcommand shows that subcommand's
/// help, whatever else the command line holds.
pub proof fn law_help_flag_wins(name: Seq<char>, rest: Seq<ArgView>)
    requires
        is_subcommand(name),
        asks_for_help(rest),
    ensures
        spec_parse(command_line(name, rest)) == Ok::<ActionView, UsageErrorView>(
            ActionView::Help(subcommand_help_text(name)),
        ),
{
    lemma_command_line(name, rest);
    lemma_subcommand_names();
}

/// `schema` runs without an output format.
pub proof fn law_schema_has_no_format(rest: Seq<ArgView>)
    ensures
        spec_parse(command_line("schema"@, rest)) matches Ok(ActionView::Run(c)) ==> c.mode
            == Mode::Schema && c.output_format is None,
{
    lemma_command_line("schema"@, rest);
    lemma_subcommand_names();
}

/// Whether an argument is an option that sets the row count.
pub open spec fn sets_row_count(a: ArgView) -> bool {
    match a {
        ArgView::Text(t) => t == "-n"@ || t == "--lines"@ || starts_with(t, "-n="@) || starts_with(
            t,
            "--lines="@,
        ),
        ArgView::Raw(_) => false,
    }
}

proof fn lemma_counted_keeps_lines(
    args: Seq<ArgView>,
    i: int,
    lines: usize,
    format: Option<OutputFormat>,
    positional: Seq<ArgView>,
    done: bool,
    help: Seq<char>,
)
    requires
        0 <= i <= args.len(),
        forall|k: int| i <= k < args.len() ==> !sets_row_count(#[trigger] args[k]),
    ensures
        scan_counted(args, i, lines, format, positional, done, help) matches Ok((l, _, _)) ==> l
            == lines,
    decreases args.len() - i,
{
    if i < args.len() {
        assert(!sets_row_count(args[i]));
        lemma_counted_keeps_lines(args, i + 1, lines, format, positional.push(args[i]), true, help);
        lemma_counted_keeps_lines(args, i + 1, lines, format, positional.push(args[i]), false, help);
        lemma_counted_keeps_lines(args, i + 1, lines, format, positional, true, help);
        if let Some(f) = format {
            lemma_counted_keeps_lines(args, i + 1, lines, Some(f), positional, false, help);
        }
        lemma_counted_keeps_lines(args, i + 1, lines, Some(OutputFormat::Jsonl), positional, false, help);
        lemma_counted_keeps_lines(args, i + 1, lines, Some(OutputFormat::Table), positional, false, help);
    }
}

/// `head` and `tail` show 10 rows when no option sets the row count.
pub proof fn law_default_row_count(tail: bool, rest: Seq<ArgView>)
    requires
        forall|k: int| 0 <= k < rest.len() ==> !sets_row_count(#[trigger] rest[k]),
    ensures
        spec_parse(command_line(counted_name(tail), rest)) matches Ok(ActionView::Run(c)) ==> c.mode
            == counted_mode(tail, 10),
{
    lemma_command_line(counted_name(tail), rest);
    lemma_subcommand_names();
    lemma_counted_keeps_lines(
        rest,
        0,
        10,
        None,
        Seq::empty(),
        false,
        counted_help_text(counted_name(tail)),
    );
}

/// The format that argument `k` selects, if it is a format flag.
pub open spec fn format_flag_at(args: Seq<ArgView>, k: int) -> Option<OutputFormat> {
    match args[k] {
        ArgView::Text(t) => flag_format(t),
        ArgView::Raw(_) => None,
    }
}

/// Argument `k` is a format flag, and no `--` stands from `from` up to it.
pub open spec fn flag_before_separator(args: Seq<ArgView>, from: int, k: int) -> bool {
    &&& from <= k < args.len()
    &&& format_flag_at(args, k) is Some
    &&& forall|j: int| from <= j < k ==> !is_text(#[trigger] args[j], "--"@)
}

/// What the scan of the flags from `from` owes: a format given before stays,
/// every format flag before `--` agrees with the result, and a format comes
/// only from a flag.
pub open spec fn formats_agree(
    args: Seq<ArgView>,
    from: int,
    before: Option<OutputFormat>,
    result: Option<OutputFormat>,
) -> bool {
    &&& before is Some ==> result == before
    &&& forall|k: int| #[trigger]
        flag_before_separator(args, from, k) ==> result == format_flag_at(args, k)
    &&& result is Some ==> before is Some || exists|k: int| #[trigger]
        flag_before_separator(args, from, k)
}

proof fn lemma_flag_texts()
    ensures
        flag_format("--"@) is None,
        flag_format("-j"@) == Some(OutputFormat::Jsonl),
        flag_format("--jsonl"@) == Some(OutputFormat::Jsonl),
        flag_format("-t"@) == Some(OutputFormat::Table),
        flag_format("--table"@) == Some(OutputFormat::Table),
        starts_with("-j"@, "-"@),
        starts_with("--jsonl"@, "-"@),
        starts_with("-t"@, "-"@),
        starts_with("--table"@, "-"@),
        "-n"@ != "-j"@ && "-n"@ != "--jsonl"@ && "-n"@ != "-t"@ && "-n"@ != "--table"@,
        "--lines"@ != "-j"@ && "--lines"@ != "--jsonl"@ && "--lines"@ != "-t"@ && "--lines"@
            != "--table"@,
{
    reveal_strlit("--");
    reveal_strlit("-j");
    reveal_strlit("--jsonl");
    reveal_strlit("-t");
    reveal_strlit("--table");
    reveal_strlit("-");
    reveal_strlit("-n");
    reveal_strlit("--lines");
    assert("--"@[1] != "-j"@[1]);
    assert("--"@.len() != "--jsonl"@.len());
    assert("--"@[1] != "-t"@[1]);
    assert("--"@.len() != "--table"@.len());
    assert("-j"@.take(1) =~= "-"@);
    assert("--jsonl"@.take(1) =~= "-"@);
    assert("-t"@.take(1) =~= "-"@);
    assert("--table"@.take(1) =~= "-"@);
    assert("-n"@[1] != "-j"@[1]);
    assert("-n"@.len() != "--jsonl"@.len());
    assert("-n"@[1] != "-t"@[1]);
    assert("-n"@.len() != "--table"@.len());
    assert("--lines"@.len() != "-j"@.len());
    assert("--lines"@[2] != "--jsonl"@[2]);
    assert("--lines"@.len() != "-t"@.len());
    assert("--lines"@[2] != "--table"@[2]);
}

/// After `--`, the scan of `cat`'s arguments keeps its format.
proof fn lemma_common_done(
    args: Seq<ArgView>,
    i: int,
    format: Option<OutputFormat>,
    positional: Seq<ArgView>,
    help: Seq<char>,
)
    requires
        0 <= i <= args.len(),
    ensures
        scan_common(args, i, format, positional, true, help) matches Ok((f, _)) && f == format,
    decreases args.len() - i,
{
    if i < args.len() {
        lemma_common_done(args, i + 1, format, positional.push(args[i]), help);
    }
}

/// After `--`, the scan of `head`'s or `tail`'s arguments keeps its format.
proof fn lemma_counted_done(
    args: Seq<ArgView>,
    i: int,
    lines: usize,
    format: Option<OutputFormat>,
    positional: Seq<ArgView>,
    help: Seq<char>,
)
    requires
        0 <= i <= args.len(),
    ensures
        scan_counted(args, i, lines, format, positional, true, help) matches Ok((_, f, _)) && f
            == format,
    decreases args.len() - i,
{
    if i < args.len() {
        lemma_counted_done(args, i + 1, lines, format, positional.push(args[i]), help);
    }
}

/// Moving the start of the flag search past an argument that is not `--`.
proof fn lemma_flag_step(args: Seq<ArgView>, i: int, step: int)
    requires
        0 <= i,
        1 <= step,
        i + step <= args.len(),
        forall|j: int| i <= j < i + step ==> !is_text(#[trigger] args[j], "--"@),
    ensures
        forall|k: int| #[trigger]
            flag_before_separator(args, i + step, k) ==> flag_before_separator(args, i, k),
        forall|k: int|
            #[trigger] flag_before_separator(args, i, k) && k >= i + step ==> flag_before_separator(
                args,
                i + step,
                k,
            ),
{
}

proof fn lemma_common_formats(
    args: Seq<ArgView>,
    i: int,
    format: Option<OutputFormat>,
    positional: Seq<ArgView>,
    help: Seq<char>,
)
    requires
        0 <= i <= args.len(),
    ensures
        scan_common(args, i, format, positional, false, help) matches Ok((f, _)) ==> formats_agree(
            args,
            i,
            format,
            f,
        ),
    decreases args.len() - i,
{
    lemma_flag_texts();
    if i < args.len() {
        match args[i] {
            ArgView::Text(t) => {
                if t == "--"@ {
                    lemma_common_done(args, i + 1, format, positional, help);
                    assert forall|k: int| #[trigger] flag_before_separator(args, i, k) implies false by {
                        if k > i {
                            assert(is_text(args[i], "--"@));
                        }
                    }
                } else if flag_format(t) is Some {
                    if let Some(g) = choose_format(format, flag_format(t).unwrap()) {
                        lemma_common_formats(args, i + 1, Some(g), positional, help);
                        lemma_flag_step(args, i, 1);
                        assert(flag_before_separator(args, i, i));
                    }
                } else if !is_stray_option(t) {
                    lemma_common_formats(args, i + 1, format, positional.push(args[i]), help);
                    lemma_flag_step(args, i, 1);
                }
            },
            ArgView::Raw(_) => {
                lemma_common_formats(args, i + 1, format, positional.push(args[i]), help);
                lemma_flag_step(args, i, 1);
            },
        }
    }
}


proof fn lemma_counted_formats(
    args: Seq<ArgView>,
    i: int,
    lines: usize,
    format: Option<OutputFormat>,
    positional: Seq<ArgView>,
    help: Seq<char>,
)
    requires
        0 <= i <= args.len(),
    ensures
        scan_counted(args, i, lines, format, positional, false, help) matches Ok((_, f, _))
            ==> formats_agree(args, i, format, f),
    decreases args.len() - i,
{
    lemma_flag_texts();
    if i < args.len() {
        match args[i] {
            ArgView::Text(t) => {
                if t == "--"@ {
                    lemma_counted_done(args, i + 1, lines, format, positional, help);
                    assert forall|k: int| #[trigger] flag_before_separator(args, i, k) implies false by {
                        if k > i {
                            assert(is_text(args[i], "--"@));
                        }
                    }
                } else if t == "-n"@ || t == "--lines"@ {
                    if i + 1 < args.len() {
                        if let Ok(n) = line_count(args[i + 1]) {
                            lemma_counted_formats(args, i + 2, n, format, positional, help);
                            assert(format_flag_at(args, i) is None);
                            assert(format_flag_at(args, i + 1) is None);
                            assert(!is_text(args[i + 1], "--"@)) by {
                                reveal_strlit("--");
                                reveal_strlit("-");
                                assert("--"@.take(1) =~= "-"@);
                            }
                            lemma_flag_step(args, i, 2);
                        }
                    }
                } else if flag_format(t) is Some {
                    if let Some(g) = choose_format(format, flag_format(t).unwrap()) {
                        lemma_counted_formats(args, i + 1, lines, Some(g), positional, help);
                        lemma_flag_step(args, i, 1);
                        assert(flag_before_separator(args, i, i));
                    }
                } else if starts_with(t, "-n="@) {
                    if let Ok(n) = line_count(ArgView::Text(t.skip("-n="@.len() as int))) {
                        lemma_counted_formats(args, i + 1, n, format, positional, help);
                        lemma_flag_step(args, i, 1);
                    }
                } else if starts_with(t, "--lines="@) {
                    if let Ok(n) = line_count(ArgView::Text(t.skip("--lines="@.len() as int))) {
                        lemma_counted_formats(args, i + 1, n, format, positional, help);
                        lemma_flag_step(args, i, 1);
                    }
                } else if !starts_with(t, "-"@) {
                    lemma_counted_formats(args, i + 1, lines, format, positional.push(args[i]), help);
                    lemma_flag_step(args, i, 1);
                }
            },
            ArgView::Raw(_) => {
                lemma_counted_formats(args, i + 1, lines, format, positional.push(args[i]), help);
                lemma_flag_step(args, i, 1);
            },
        }
    }
}

/// Whether the subcommand writes rows.
pub open spec fn is_row_command(name: Seq<char>) -> bool {
    name == "cat"@ || name == "head"@ || name == "tail"@
}

/// The output format of a row command that runs is the one that its format
/// flags before `--` select: they all select it (so `-j` together with `-t`
/// is never accepted), and there is none exactly when no such flag is given.
pub proof fn law_format_flags_decide(name: Seq<char>, rest: Seq<ArgView>)
    requires
        is_row_command(name),
    ensures
        spec_parse(command_line(name, rest)) matches Ok(ActionView::Run(c)) ==> {
            &&& forall|k: int| #[trigger]
                flag_before_separator(rest, 0, k) ==> c.output_format == format_flag_at(rest, k)
            &&& (c.output_format is Some <==> exists|k: int| #[trigger]
                flag_before_separator(rest, 0, k))
        },
{
    lemma_command_line(name, rest);
    lemma_subcommand_names();
    if name == "cat"@ {
        lemma_common_formats(rest, 0, None, Seq::empty(), cat_help_text());
    } else {
        let tail = name == "tail"@;
        assert(name == counted_name(tail));
        lemma_counted_formats(rest, 0, 10, None, Seq::empty(), counted_help_text(name));
    }
}


} // verus!
