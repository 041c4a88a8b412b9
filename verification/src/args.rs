use vstd::prelude::*;
use crate::text::string_from_str;

verus! {

/// Size of the buffer used for input and output, unless configured otherwise.
pub const DEFAULT_BUF_SIZE: usize = 32 * 1024;

/// Name of the environment variable that selects NUL as the line delimiter.
pub const ENV_NULL: &'static str = "REW_NULL";

/// Name of the environment variable that selects the output buffering mode.
pub const ENV_BUF_MODE: &'static str = "REW_BUF_MODE";

/// Name of the environment variable that sets the buffer size.
pub const ENV_BUF_SIZE: &'static str = "REW_BUF_SIZE";

/// How output is buffered.
#[derive(Clone, Copy, Debug, PartialEq, Eq)]
pub enum BufMode {
    /// Output is written after each line or when the buffer is full (interactive use).
    Line,
    /// Output is written only when the buffer is full (throughput).
    Full,
}

impl BufMode {
    /// The mode used when none is configured: line buffering when the output is a
    /// terminal, full buffering otherwise.
    pub fn for_output(is_terminal: bool) -> (m: BufMode)
        ensures
            m == (if is_terminal {
                BufMode::Line
            } else {
                BufMode::Full
            }),
    {
        if is_terminal {
            BufMode::Line
        } else {
            BufMode::Full
        }
    }

    /// The name of the mode.
    pub open spec fn name(self) -> Seq<char> {
        match self {
            BufMode::Line => "line"@,
            BufMode::Full => "full"@,
        }
    }

    /// The name of the mode, as it is written on the command line.
    pub fn to_display_string(&self) -> (s: String)
        ensures
            s@ == self.name(),
    {
        match self {
            BufMode::Line => string_from_str("line"),
            BufMode::Full => string_from_str("full"),
        }
    }

    /// Whether the mode is line buffering.
    pub fn is_line(&self) -> (b: bool)
        ensures
            b == (*self == BufMode::Line),
    {
        match self {
            BufMode::Line => true,
            BufMode::Full => false,
        }
    }

    /// Whether the mode is full buffering.
    pub fn is_full(&self) -> (b: bool)
        ensures
            b == (*self == BufMode::Full),
    {
        match self {
            BufMode::Line => false,
            BufMode::Full => true,
        }
    }
}

/// Options that every command of the project takes.
#[derive(Debug, Clone, PartialEq, Eq)]
pub struct GlobalArgs {
    /// Lines are delimited by NUL, not newline.
    pub null: bool,
    /// How output is buffered.
    pub buf_mode: BufMode,
    /// Size of the buffer used for input and output.
    pub buf_size: usize,
}

impl GlobalArgs {
    /// The options when none is given, for output that is or is not a terminal.
    pub fn defaults(is_terminal: bool) -> (a: GlobalArgs)
        ensures
            a.null == false,
            a.buf_mode == BufMode::for_output_spec(is_terminal),
            a.buf_size == DEFAULT_BUF_SIZE,
    {
        GlobalArgs { null: false, buf_mode: BufMode::for_output(is_terminal), buf_size: DEFAULT_BUF_SIZE }
    }
}

impl BufMode {
    /// The mode used when none is configured.
    pub open spec fn for_output_spec(is_terminal: bool) -> BufMode {
        if is_terminal {
            BufMode::Line
        } else {
            BufMode::Full
        }
    }
}

} // verus!
