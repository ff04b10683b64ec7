//! Command-line decisions: colour choice, style resolution and flags.

use vstd::prelude::*;

use crate::style::Style;
use crate::text::{append_range, chars_of, str_eq};

verus! {

/// The user's choice of when to use ANSI colour.
#[derive(Debug, Clone, Copy, PartialEq, Eq)]
pub enum ColorChoice {
    Auto,
    Always,
    Never,
}

pub open spec fn color_named(s: Seq<char>) -> Option<ColorChoice> {
    if s == "auto"@ {
        Some(ColorChoice::Auto)
    } else if s == "always"@ {
        Some(ColorChoice::Always)
    } else if s == "never"@ {
        Some(ColorChoice::Never)
    } else {
        None
    }
}

pub fn parse_color(s: &str) -> (r: Option<ColorChoice>)
    ensures
        r == color_named(s@),
{
    if str_eq(s, "auto") {
        Some(ColorChoice::Auto)
    } else if str_eq(s, "always") {
        Some(ColorChoice::Always)
    } else if str_eq(s, "never") {
        Some(ColorChoice::Never)
    } else {
        None
    }
}

/// The style to use for a stream.
///
/// `Always` and `Never` decide alone. Under `Auto`, a non-empty
/// `CLICOLOR_FORCE` (`force`) forces colour, else a non-empty `NO_COLOR`
/// (`no_color`) disables it, else colour is used only on a terminal.
pub open spec fn style_for(choice: ColorChoice, is_tty: bool, force: bool, no_color: bool) -> Style {
    match choice {
        ColorChoice::Always => Style::Ansi,
        ColorChoice::Never => Style::Plain,
        ColorChoice::Auto => if force {
            Style::Ansi
        } else if no_color {
            Style::Plain
        } else if is_tty {
            Style::Ansi
        } else {
            Style::Plain
        },
    }
}

pub fn resolve_style(choice: ColorChoice, is_tty: bool, force: bool, no_color: bool) -> (r: Style)
    ensures
        r == style_for(choice, is_tty, force, no_color),
{
    match choice {
        ColorChoice::Always => Style::Ansi,
        ColorChoice::Never => Style::Plain,
        ColorChoice::Auto => {
            if force {
                return Style::Ansi;
            }
            if no_color {
                Style::Plain
            } else if is_tty {
                Style::Ansi
            } else {
                Style::Plain
            }
        },
    }
}

/// What the command line asks for.
#[derive(Debug)]
pub struct CliOptions {
    pub dump_tokens: bool,
    pub dump_ast: bool,
    pub show_help: bool,
    pub show_version: bool,
    pub color: ColorChoice,
    pub file: Option<String>,
}

/// A command line that cannot be used.
#[derive(Debug)]
pub enum CliError {
    /// `--color` with a value other than auto, always or never.
    BadColor(String),
    /// `--color` as the last argument.
    MissingColorValue,
    /// An argument starting with `-` that is no flag.
    UnknownFlag(String),
    /// A second file name.
    TooManyPositionals,
}

/// Mathematical value of `CliOptions`.
pub struct OptionsModel {
    pub dump_tokens: bool,
    pub dump_ast: bool,
    pub show_help: bool,
    pub show_version: bool,
    pub color: ColorChoice,
    pub file: Option<Seq<char>>,
}

/// Mathematical value of `CliError`.
pub enum CliErrorModel {
    BadColor(Seq<char>),
    MissingColorValue,
    UnknownFlag(Seq<char>),
    TooManyPositionals,
}

impl View for CliOptions {
    type V = OptionsModel;

    open spec fn view(&self) -> OptionsModel {
        OptionsModel {
            dump_tokens: self.dump_tokens,
            dump_ast: self.dump_ast,
            show_help: self.show_help,
            show_version: self.show_version,
            color: self.color,
            file: match self.file {
                Some(f) => Some(f@),
                None => None,
            },
        }
    }
}

impl View for CliError {
    type V = CliErrorModel;

    open spec fn view(&self) -> CliErrorModel {
        match self {
            CliError::BadColor(v) => CliErrorModel::BadColor(v@),
            CliError::MissingColorValue => CliErrorModel::MissingColorValue,
            CliError::UnknownFlag(f) => CliErrorModel::UnknownFlag(f@),
            CliError::TooManyPositionals => CliErrorModel::TooManyPositionals,
        }
    }
}

pub open spec fn has_prefix(s: Seq<char>, p: Seq<char>) -> bool {
    p.len() <= s.len() && s.subrange(0, p.len() as int) == p
}

/// Options before any argument is read.
pub open spec fn default_options() -> OptionsModel {
    OptionsModel {
        dump_tokens: false,
        dump_ast: false,
        show_help: false,
        show_version: false,
        color: ColorChoice::Auto,
        file: None,
    }
}

/// Reads `args[i..]` into `o`: flags set options, `--color=V` and
/// `--color V` set the colour, a lone name is the file.
pub open spec fn read_args(args: Seq<Seq<char>>, i: int, o: OptionsModel) -> Result<OptionsModel, CliErrorModel>
    decreases args.len() - i,
{
    if i < 0 || i >= args.len() {
        Ok(o)
    } else {
        let a = args[i];
        if a == "--dump-tokens"@ {
            read_args(args, i + 1, OptionsModel { dump_tokens: true, ..o })
        } else if a == "--dump-ast"@ {
            read_args(args, i + 1, OptionsModel { dump_ast: true, ..o })
        } else if a == "--help"@ || a == "-h"@ {
            read_args(args, i + 1, OptionsModel { show_help: true, ..o })
        } else if a == "--version"@ || a == "-V"@ {
            read_args(args, i + 1, OptionsModel { show_version: true, ..o })
        } else if has_prefix(a, "--color="@) {
            let value = a.subrange("--color="@.len() as int, a.len() as int);
            match color_named(value) {
                Some(c) => read_args(args, i + 1, OptionsModel { color: c, ..o }),
                None => Err(CliErrorModel::BadColor(value)),
            }
        } else if a == "--color"@ {
            if i + 1 >= args.len() {
                Err(CliErrorModel::MissingColorValue)
            } else {
                match color_named(args[i + 1]) {
                    Some(c) => read_args(args, i + 2, OptionsModel { color: c, ..o }),
                    None => Err(CliErrorModel::BadColor(args[i + 1])),
                }
            }
        } else if a == "--no-color"@ {
            read_args(args, i + 1, OptionsModel { color: ColorChoice::Never, ..o })
        } else if a.len() > 0 && a[0] == '-' {
            Err(CliErrorModel::UnknownFlag(a))
        } else if o.file is Some {
            Err(CliErrorModel::TooManyPositionals)
        } else {
            read_args(args, i + 1, OptionsModel { file: Some(a), ..o })
        }
    }
}

pub open spec fn result_model(r: Result<CliOptions, CliError>) -> Result<OptionsModel, CliErrorModel> {
    match r {
        Ok(o) => Ok(o@),
        Err(e) => Err(e@),
    }
}

/// Does `s` start with `p`?
fn starts_with(s: &str, p: &str) -> (r: bool)
    ensures
        r == has_prefix(s@, p@),
{
    let sv = chars_of(s);
    let pv = chars_of(p);
    if pv.len() > sv.len() {
        return false;
    }
    let mut k: usize = 0;
    while k < pv.len()
        invariant
            pv@ == p@,
            sv@ == s@,
            pv@.len() <= sv@.len(),
            k <= pv@.len(),
            forall|j: int| 0 <= j < k ==> sv@[j] == pv@[j],
        decreases pv@.len() - k,
    {
        if sv[k] != pv[k] {
            proof {
                assert(sv@.subrange(0, pv@.len() as int)[k as int] != pv@[k as int]);
            }
            return false;
        }
        k = k + 1;
    }
    proof {
        assert(sv@.subrange(0, pv@.len() as int) =~= pv@);
    }
    true
}

/// The characters of `s` from index `from` on.
fn suffix(s: &str, from: usize) -> (r: String)
    requires
        from <= s@.len(),
    ensures
        r@ == s@.subrange(from as int, s@.len() as int),
{
    let v = chars_of(s);
    let mut out = String::new();
    append_range(&mut out, &v, from, v.len());
    proof {
        assert(out@ =~= s@.subrange(from as int, s@.len() as int));
    }
    out
}

/// Parse the command-line arguments that follow the program name.
pub fn parse_cli(args: &Vec<String>) -> (r: Result<CliOptions, CliError>)
    ensures
        result_model(r) == read_args(args@.map_values(|a: String| a@), 0, default_options()),
{
    let ghost av = args@.map_values(|a: String| a@);
    let mut o = CliOptions {
        dump_tokens: false,
        dump_ast: false,
        show_help: false,
        show_version: false,
        color: ColorChoice::Auto,
        file: None,
    };
    let mut i: usize = 0;
    proof {
        assert(o@ == default_options());
    }
    while i < args.len()
        invariant
            i <= args@.len(),
            av == args@.map_values(|a: String| a@),
            read_args(av, i as int, o@) == read_args(av, 0, default_options()),
        decreases args@.len() - i,
    {
        let a = args[i].as_str();
        proof {
            assert(a@ == av[i as int]);
        }
        if str_eq(a, "--dump-tokens") {
            o.dump_tokens = true;
        } else if str_eq(a, "--dump-ast") {
            o.dump_ast = true;
        } else if str_eq(a, "--help") || str_eq(a, "-h") {
            o.show_help = true;
        } else if str_eq(a, "--version") || str_eq(a, "-V") {
            o.show_version = true;
        } else if starts_with(a, "--color=") {
            proof {
                reveal_strlit("--color=");
            }
            let value = suffix(a, 8);
            match parse_color(value.as_str()) {
                Some(c) => o.color = c,
                None => return Err(CliError::BadColor(value)),
            }
        } else if str_eq(a, "--color") {
            if i + 1 >= args.len() {
                return Err(CliError::MissingColorValue);
            }
            i = i + 1;
            let value = args[i].as_str();
            proof {
                assert(value@ == av[i as int]);
            }
            match parse_color(value) {
                Some(c) => o.color = c,
                None => return Err(CliError::BadColor(value.to_owned())),
            }
        } else if str_eq(a, "--no-color") {
            o.color = ColorChoice::Never;
        } else if starts_with(a, "-") {
            proof {
                reveal_strlit("-");
                if a@.len() > 0 {
                    assert(a@.subrange(0, 1)[0] == a@[0]);
                }
            }
            return Err(CliError::UnknownFlag(a.to_owned()));
        } else {
            proof {
                reveal_strlit("-");
                if a@.len() > 0 && a@[0] == '-' {
                    assert(a@.subrange(0, 1) =~= "-"@);
                }
            }
            if o.file.is_some() {
                return Err(CliError::TooManyPositionals);
            }
            o.file = Some(a.to_owned());
        }
        i = i + 1;
    }
    Ok(o)
}

/// The message printed for an unusable command line.
pub open spec fn cli_error_text(e: CliErrorModel) -> Seq<char> {
    match e {
        CliErrorModel::BadColor(v) => "oxyl: --color expects auto, always, or never (got '"@ + v
            + "')."@,
        CliErrorModel::MissingColorValue => "oxyl: --color needs a value (auto, always, never)."@,
        CliErrorModel::UnknownFlag(f) => "oxyl: unknown flag '"@ + f + "'. Try --help."@,
        CliErrorModel::TooManyPositionals => "oxyl: too many positional arguments. Try --help."@,
    }
}

impl CliError {
    pub fn message(&self) -> (r: String)
        ensures
            r@ == cli_error_text(self@),
    {
        match self {
            CliError::BadColor(v) => {
                let mut m = "oxyl: --color expects auto, always, or never (got '".to_owned();
                m.append(v.as_str());
                m.append("').");
                m
            },
            CliError::MissingColorValue => "oxyl: --color needs a value (auto, always, never).".to_owned(),
            CliError::UnknownFlag(f) => {
                let mut m = "oxyl: unknown flag '".to_owned();
                m.append(f.as_str());
                m.append("'. Try --help.");
                m
            },
            CliError::TooManyPositionals => "oxyl: too many positional arguments. Try --help.".to_owned(),
        }
    }
}

// ----------------------------------------------------------------------
// Laws of the command line
// ----------------------------------------------------------------------

/// The flags that switch an option on.
pub enum Flag {
    Help,
    Version,
    DumpTokens,
    DumpAst,
}

/// `a` is flag `f`, in its long or (where it has one) short form.
pub open spec fn is_flag(f: Flag, a: Seq<char>) -> bool {
    match f {
        Flag::Help => a == "--help"@ || a == "-h"@,
        Flag::Version => a == "--version"@ || a == "-V"@,
        Flag::DumpTokens => a == "--dump-tokens"@,
        Flag::DumpAst => a == "--dump-ast"@,
    }
}

/// Flag `f` is among `args[i..]`.
pub open spec fn occurs(args: Seq<Seq<char>>, i: int, f: Flag) -> bool {
    exists|k: int| i <= k < args.len() && is_flag(f, #[trigger] args[k])
}

/// A flag that takes no value.
pub open spec fn is_plain_flag(a: Seq<char>) -> bool {
    is_flag(Flag::Help, a) || is_flag(Flag::Version, a) || is_flag(Flag::DumpTokens, a) || is_flag(
        Flag::DumpAst,
        a,
    ) || a == "--no-color"@
}

/// `args[i..]` is a usable command line: each argument is a known flag,
/// `--color=V` or `--color V` with V one of auto, always, never, or a name
/// not starting with `-`, and there is at most one name in all (`seen`
/// tells whether one came before `i`).
pub open spec fn usable_from(args: Seq<Seq<char>>, i: int, seen: bool) -> bool
    decreases args.len() - i,
{
    if i < 0 || i >= args.len() {
        true
    } else {
        let a = args[i];
        if is_plain_flag(a) {
            usable_from(args, i + 1, seen)
        } else if has_prefix(a, "--color="@) {
            color_named(a.subrange(8, a.len() as int)) is Some && usable_from(args, i + 1, seen)
        } else if a == "--color"@ {
            i + 1 < args.len() && color_named(args[i + 1]) is Some && usable_from(args, i + 2, seen)
        } else if a.len() > 0 && a[0] == '-' {
            false
        } else {
            !seen && usable_from(args, i + 1, true)
        }
    }
}

proof fn lemma_literals_differ()
    ensures
        forall|f: Flag, v: Seq<char>| #[trigger] is_flag(f, v) ==> v.len() > 0 && v[0] == '-',
        forall|v: Seq<char>| #[trigger] color_named(v) is Some ==> v.len() > 0 && v[0] != '-',
        !has_prefix("--dump-tokens"@, "--color="@),
        !has_prefix("--dump-ast"@, "--color="@),
        !has_prefix("--help"@, "--color="@) && !has_prefix("-h"@, "--color="@),
        !has_prefix("--version"@, "--color="@) && !has_prefix("-V"@, "--color="@),
        !has_prefix("--no-color"@, "--color="@),
        "--color="@.len() == 8,
        "--help"@.len() == 6,
        "-h"@ == seq!['-', 'h'],
        "-V"@ == seq!['-', 'V'],
        "--version"@.len() == 9,
        "--dump-tokens"@.len() == 13,
        "--dump-ast"@.len() == 10 && "--dump-ast"@[2] == 'd',
        "--no-color"@.len() == 10 && "--no-color"@[2] == 'n',
        "--color"@.len() == 7,
{
    reveal_strlit("--color");
    reveal_strlit("auto");
    reveal_strlit("always");
    reveal_strlit("never");
    reveal_strlit("--help");
    reveal_strlit("-h");
    reveal_strlit("--version");
    reveal_strlit("-V");
    reveal_strlit("--dump-tokens");
    reveal_strlit("--dump-ast");
    reveal_strlit("--no-color");
    reveal_strlit("--color=");
    assert("--dump-tokens"@.subrange(0, 8)[2] != "--color="@[2]);
    assert("--dump-ast"@.subrange(0, 8)[2] != "--color="@[2]);
    assert("--version"@.subrange(0, 8)[2] != "--color="@[2]);
    assert("--no-color"@.subrange(0, 8)[2] != "--color="@[2]);
}

proof fn lemma_occurs_step(args: Seq<Seq<char>>, i: int, step: int, f: Flag)
    requires
        0 <= i,
        1 <= step <= 2,
        i + step <= args.len(),
    ensures
        occurs(args, i, f) <==> (is_flag(f, args[i]) || (step == 2 && is_flag(f, args[i + 1])) || occurs(
            args,
            i + step,
            f,
        )),
{
    if occurs(args, i, f) {
        let k = choose|k: int| i <= k < args.len() && is_flag(f, #[trigger] args[k]);
        if k >= i + step {
            assert(occurs(args, i + step, f));
        }
    }
    if occurs(args, i + step, f) {
        let k = choose|k: int| i + step <= k < args.len() && is_flag(f, #[trigger] args[k]);
        assert(i <= k);
    }
    if is_flag(f, args[i]) {
        assert(occurs(args, i, f));
    }
    if step == 2 && is_flag(f, args[i + 1]) {
        assert(occurs(args, i, f));
    }
}

/// The options `o`, with the flags of `args[i..]` switched on.
pub open spec fn flags_after(args: Seq<Seq<char>>, i: int, o: OptionsModel, r: OptionsModel) -> bool {
    &&& r.show_help == (o.show_help || occurs(args, i, Flag::Help))
    &&& r.show_version == (o.show_version || occurs(args, i, Flag::Version))
    &&& r.dump_tokens == (o.dump_tokens || occurs(args, i, Flag::DumpTokens))
    &&& r.dump_ast == (o.dump_ast || occurs(args, i, Flag::DumpAst))
}

proof fn lemma_read_args(args: Seq<Seq<char>>, i: int, o: OptionsModel)
    requires
        0 <= i <= args.len(),
    ensures
        read_args(args, i, o) is Ok <==> usable_from(args, i, o.file is Some),
        read_args(args, i, o) matches Ok(r) ==> flags_after(args, i, o, r),
    decreases args.len() - i,
{
    lemma_literals_differ();
    if i < args.len() {
        let a = args[i];
        let step = if a == "--color"@ { 2int } else { 1int };
        if i + step <= args.len() {
            lemma_occurs_step(args, i, step, Flag::Help);
            lemma_occurs_step(args, i, step, Flag::Version);
            lemma_occurs_step(args, i, step, Flag::DumpTokens);
            lemma_occurs_step(args, i, step, Flag::DumpAst);
        }
        if step == 2 && i + 1 < args.len() && color_named(args[i + 1]) is Some {
            assert(!is_flag(Flag::Help, args[i + 1]));
            assert(!is_flag(Flag::Version, args[i + 1]));
            assert(!is_flag(Flag::DumpTokens, args[i + 1]));
            assert(!is_flag(Flag::DumpAst, args[i + 1]));
        }
        if a == "--dump-tokens"@ {
            lemma_read_args(args, i + 1, OptionsModel { dump_tokens: true, ..o });
        } else if a == "--dump-ast"@ {
            lemma_read_args(args, i + 1, OptionsModel { dump_ast: true, ..o });
        } else if a == "--help"@ || a == "-h"@ {
            lemma_read_args(args, i + 1, OptionsModel { show_help: true, ..o });
        } else if a == "--version"@ || a == "-V"@ {
            lemma_read_args(args, i + 1, OptionsModel { show_version: true, ..o });
        } else if has_prefix(a, "--color="@) {
            let value = a.subrange("--color="@.len() as int, a.len() as int);
            assert(!is_plain_flag(a));
            match color_named(value) {
                Some(c) => lemma_read_args(args, i + 1, OptionsModel { color: c, ..o }),
                None => {},
            }
        } else if a == "--color"@ {
            if i + 1 < args.len() {
                match color_named(args[i + 1]) {
                    Some(c) => lemma_read_args(args, i + 2, OptionsModel { color: c, ..o }),
                    None => {},
                }
            }
        } else if a == "--no-color"@ {
            lemma_read_args(args, i + 1, OptionsModel { color: ColorChoice::Never, ..o });
        } else if a.len() > 0 && a[0] == '-' {
        } else if o.file is Some {
        } else {
            lemma_read_args(args, i + 1, OptionsModel { file: Some(a), ..o });
        }
    }
}

/// A command line is accepted exactly when it is usable (see
/// `usable_from`), and then each flag is on exactly when it is given, in
/// its long or short form: `--help`/`-h`, `--version`/`-V`,
/// `--dump-tokens`, `--dump-ast`.
pub proof fn lemma_command_line_flags(args: Seq<Seq<char>>)
    ensures
        read_args(args, 0, default_options()) is Ok <==> usable_from(args, 0, false),
        read_args(args, 0, default_options()) matches Ok(r) ==> {
            &&& r.show_help == occurs(args, 0, Flag::Help)
            &&& r.show_version == occurs(args, 0, Flag::Version)
            &&& r.dump_tokens == occurs(args, 0, Flag::DumpTokens)
            &&& r.dump_ast == occurs(args, 0, Flag::DumpAst)
        },
{
    lemma_read_args(args, 0, default_options());
}

} // verus!
