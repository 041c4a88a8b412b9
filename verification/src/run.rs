use vstd::prelude::*;
use crate::output::Mode;
use crate::io::Separator;
use crate::parse::{Separator as ColumnSeparator, SeparatorView};
use crate::text::string_from_str;
use crate::counter::{GlobalGenerator, LocalGenerator, directory_key};
use crate::eval::Context;
use crate::filter::path::{file_name_text, get_file_name};
use crate::regexp::{RegexHolder, captures_view, regex_captures};

verus! {

/// Exit code of a run that went well.
pub const EXIT_CODE_OK: u8 = 0;

/// Exit code of a run that failed to read or write.
pub const EXIT_CODE_IO_ERROR: u8 = 1;

/// Exit code of a run whose pattern could not be parsed.
pub const EXIT_CODE_PARSE_ERROR: u8 = 3;

/// Exit code of a run in which a value could not be evaluated.
pub const EXIT_CODE_EVAL_ERROR: u8 = 4;

/// How results are written, by the output options (the first that is set wins).
pub open spec fn mode_for(pretty: bool, diff: bool, json_lines: bool, no_print_end: bool) -> Mode {
    if pretty {
        Mode::Pretty
    } else if diff {
        Mode::Diff
    } else if json_lines {
        Mode::JsonLines
    } else if no_print_end {
        Mode::StandardNoEnd
    } else {
        Mode::Standard
    }
}

/// How results are written, by the output options.
pub fn output_mode(pretty: bool, diff: bool, json_lines: bool, no_print_end: bool) -> (m: Mode)
    ensures
        m == mode_for(pretty, diff, json_lines, no_print_end),
{
    if pretty {
        Mode::Pretty
    } else if diff {
        Mode::Diff
    } else if json_lines {
        Mode::JsonLines
    } else if no_print_end {
        Mode::StandardNoEnd
    } else {
        Mode::Standard
    }
}

/// What follows each result: a given text, nothing, NUL, or a newline.
pub open spec fn terminator_for(print: Option<Seq<char>>, print_raw: bool, print_nul: bool) -> Seq<char> {
    match print {
        Some(t) => t,
        None => if print_raw {
            Seq::empty()
        } else if print_nul {
            seq!['\0']
        } else {
            seq!['\n']
        },
    }
}

/// What follows each result, by the output options.
pub fn output_terminator(print: Option<&str>, print_raw: bool, print_nul: bool) -> (t: String)
    ensures
        t@ == terminator_for(
            match print {
                Some(p) => Some(p@),
                None => None,
            },
            print_raw,
            print_nul,
        ),
{
    match print {
        Some(p) => string_from_str(p),
        None => {
            let mut t = String::new();
            if print_raw {
            } else if print_nul {
                crate::text::push_char(&mut t, '\0');
            } else {
                crate::text::push_char(&mut t, '\n');
            }
            assert(t@ =~= terminator_for(None, print_raw, print_nul));
            t
        },
    }
}

/// What ends each input value read from stdin: a chosen byte, else NUL where asked for,
/// else a newline.
pub fn input_separator(read: Option<u8>, read_nul: bool) -> (s: Separator)
    ensures
        s == (match read {
            Some(b) => Separator::Byte(b),
            None => if read_nul {
                Separator::Null
            } else {
                Separator::Newline
            },
        }),
{
    match read {
        Some(b) => Separator::Byte(b),
        None => if read_nul {
            Separator::Null
        } else {
            Separator::Newline
        },
    }
}

/// When output is colored.
#[derive(Debug, Clone, Copy, PartialEq, Eq, Structural)]
pub enum ColorChoice {
    /// Where the output is a terminal.
    Auto,
    /// Always.
    Always,
    /// Always, with ANSI escape sequences.
    AlwaysAnsi,
    /// Never.
    Never,
}

/// The names of the color choices, as given on the command line.
pub open spec fn color_choice_of(name: Seq<char>) -> Option<ColorChoice> {
    if name == "auto"@ {
        Some(ColorChoice::Auto)
    } else if name == "always"@ {
        Some(ColorChoice::Always)
    } else if name == "ansi"@ {
        Some(ColorChoice::AlwaysAnsi)
    } else if name == "never"@ {
        Some(ColorChoice::Never)
    } else {
        None
    }
}

/// Reads a color choice: `auto`, `always`, `ansi` or `never`.
pub fn parse_color(name: &str) -> (r: Option<ColorChoice>)
    ensures
        r == color_choice_of(name@),
{
    if crate::text::text_eq(name, "auto") {
        Some(ColorChoice::Auto)
    } else if crate::text::text_eq(name, "always") {
        Some(ColorChoice::Always)
    } else if crate::text::text_eq(name, "ansi") {
        Some(ColorChoice::AlwaysAnsi)
    } else if crate::text::text_eq(name, "never") {
        Some(ColorChoice::Never)
    } else {
        None
    }
}

/// Whether output is colored: as chosen, and where nothing was chosen, where it goes to a
/// terminal.
pub fn colors_enabled(choice: Option<ColorChoice>, is_terminal: bool) -> (r: bool)
    ensures
        r == match choice {
            Some(ColorChoice::Always) | Some(ColorChoice::AlwaysAnsi) => true,
            Some(ColorChoice::Never) => false,
            Some(ColorChoice::Auto) | None => is_terminal,
        },
{
    match choice {
        Some(ColorChoice::Always) | Some(ColorChoice::AlwaysAnsi) => true,
        Some(ColorChoice::Never) => false,
        Some(ColorChoice::Auto) | None => is_terminal,
    }
}

/// The separator of columns that a column filter uses when it names none: the given text,
/// else the given regular expression, else one or more white space characters.
pub fn column_separator(text: Option<String>, regex: Option<RegexHolder>) -> (r: std::result::Result<ColumnSeparator, String>)
    ensures
        match (text, regex) {
            (Some(t), _) => r matches Ok(s) && s@ == SeparatorView::Text(t@),
            (None, Some(h)) => r matches Ok(s) && s@ == SeparatorView::Pattern(h@),
            (None, None) => (r is Ok <==> crate::regexp::regex_valid("\\s+"@)) && (r matches Ok(s) ==> s@
                == SeparatorView::Pattern("\\s+"@)),
        },
{
    match text {
        Some(t) => Ok(ColumnSeparator::String(t)),
        None => match regex {
            Some(h) => Ok(ColumnSeparator::Regex(h)),
            None => match RegexHolder::compile("\\s+") {
                Ok(h) => Ok(ColumnSeparator::Regex(h)),
                Err(message) => Err(message),
            },
        },
    }
}

/// The quote put around each expression's value, by how many times quoting was asked for:
/// none, single quotes, then double quotes.
pub fn expression_quotes(count: u8) -> (q: Option<char>)
    ensures
        q == (if count == 0 {
            None
        } else if count == 1 {
            Some('\'')
        } else {
            Some('"')
        }),
{
    if count == 0 {
        None
    } else if count == 1 {
        Some('\'')
    } else {
        Some('"')
    }
}

/// What a run does after a value could not be evaluated.
#[derive(Debug, Clone, Copy, PartialEq, Eq, Structural)]
pub enum AfterFailure {
    /// Go on with the next value; the run ends with the given exit code.
    Continue(u8),
    /// End the run now with the given exit code.
    Stop(u8),
}

/// What a run does after a value could not be evaluated: with `fail_at_end` it goes on
/// and fails when the input ends, otherwise it stops; either way it fails.
pub fn after_failure(fail_at_end: bool) -> (a: AfterFailure)
    ensures
        a == (if fail_at_end {
            AfterFailure::Continue(EXIT_CODE_EVAL_ERROR)
        } else {
            AfterFailure::Stop(EXIT_CODE_EVAL_ERROR)
        }),
{
    if fail_at_end {
        AfterFailure::Continue(EXIT_CODE_EVAL_ERROR)
    } else {
        AfterFailure::Stop(EXIT_CODE_EVAL_ERROR)
    }
}

/// The groups that the external regular expression captures for a value: the regex for
/// values is matched against the whole value; else the regex for file names is matched
/// against the value's file name (empty when it has none); with neither there is nothing.
pub open spec fn captures_for(
    value: Seq<char>,
    value_regex: Option<Seq<char>>,
    file_name_regex: Option<Seq<char>>,
) -> Option<Seq<Option<Seq<char>>>> {
    match value_regex {
        Some(p) => regex_captures(p, value),
        None => match file_name_regex {
            Some(p) => regex_captures(p, file_name_text(value)),
            None => None,
        },
    }
}

/// The pattern text of an optional regex holder.
pub open spec fn holder_view(holder: Option<&RegexHolder>) -> Option<Seq<char>> {
    match holder {
        Some(h) => Some(h@),
        None => None,
    }
}

/// The groups that the external regular expression captures for `value` (see
/// `captures_for`).
pub fn value_captures(
    value: &str,
    value_regex: Option<&RegexHolder>,
    file_name_regex: Option<&RegexHolder>,
) -> (r: Option<Vec<Option<String>>>)
    ensures
        captures_view(r) == captures_for(value@, holder_view(value_regex), holder_view(file_name_regex)),
{
    match value_regex {
        Some(regex) => regex.captures(value),
        None => match file_name_regex {
            Some(regex) => match get_file_name(string_from_str(value)) {
                Ok(file_name) => regex.captures(file_name.as_str()),
                Err(_) => None,
            },
            None => None,
        },
    }
}

/// Whether the global counter can give its value and grow by its step.
pub open spec fn global_can_advance(g: GlobalGenerator) -> bool {
    g.value + g.step <= u32::MAX
}

/// Whether the local counter of the directory of `value` can give its next value.
pub open spec fn local_can_advance(l: LocalGenerator, value: Seq<char>) -> bool {
    l@.contains_key(directory_key(value)) ==> l@[directory_key(value)] + l.step <= u32::MAX
}

/// The context in which one value is evaluated. Each counter that the pattern uses gives
/// its next value (an unused one stays as it is and gives 0); the captures are taken only
/// where the pattern uses them. When a used counter would go beyond `u32::MAX`, nothing
/// changes and nothing comes back.
pub fn next_context(
    value: &str,
    global_used: bool,
    local_used: bool,
    captures_used: bool,
    global: &mut GlobalGenerator,
    local: &mut LocalGenerator,
    value_regex: Option<&RegexHolder>,
    file_name_regex: Option<&RegexHolder>,
    working_dir: &str,
    expression_quotes: Option<char>,
) -> (r: Option<Context>)
    requires
        old(local).wf(),
    ensures
        final(local).wf(),
        r is None <==> (global_used && !global_can_advance(*old(global))) || (local_used && !local_can_advance(
            *old(local),
            value@,
        )),
        r is None ==> *final(global) == *old(global) && *final(local) == *old(local),
        r matches Some(c) ==> {
            &&& c.working_dir@ == working_dir@
            &&& c.expression_quotes == expression_quotes
            &&& if global_used {
                &&& c.global_counter == old(global).value
                &&& final(global).value == old(global).value + old(global).step
                &&& final(global).step == old(global).step
            } else {
                &&& c.global_counter == 0
                &&& *final(global) == *old(global)
            }
            &&& if local_used {
                &&& c.local_counter == (if old(local)@.contains_key(directory_key(value@)) {
                    (old(local)@[directory_key(value@)] + old(local).step) as u32
                } else {
                    old(local).init
                })
                &&& final(local)@ == old(local)@.insert(directory_key(value@), c.local_counter)
                &&& final(local).init == old(local).init
                &&& final(local).step == old(local).step
            } else {
                &&& c.local_counter == 0
                &&& *final(local) == *old(local)
            }
            &&& captures_view(c.regex_captures) == if captures_used {
                captures_for(value@, holder_view(value_regex), holder_view(file_name_regex))
            } else {
                None
            }
        },
{
    let global_ok = global.value <= u32::MAX - global.step;
    if global_used && !global_ok {
        return None;
    }
    if local_used && !local.can_advance(value) {
        return None;
    }
    let global_counter = if global_used {
        global.next()
    } else {
        0
    };
    let local_counter = if local_used {
        local.next(value)
    } else {
        0
    };
    let regex_captures = if captures_used {
        value_captures(value, value_regex, file_name_regex)
    } else {
        None
    };
    Some(Context {
        working_dir: string_from_str(working_dir),
        global_counter,
        local_counter,
        regex_captures,
        expression_quotes,
    })
}

} // verus!
