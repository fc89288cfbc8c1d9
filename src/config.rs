//! Formatting options, their defaults, and the correction applied to a
//! configuration read from a file.
use vstd::prelude::*;

verus! {

/// The options that one formatting run reads.
#[derive(Clone, Copy, Debug, PartialEq, Eq, Structural)]
pub struct FormatConfig {
    /// Spaces per indentation level.
    pub indent_width: usize,
    /// Indent with one tab per level instead of spaces.
    pub use_tabs: bool,
    /// Accepted for configuration files; directives are always flush left.
    pub align_preprocessor: bool,
    /// Insert `begin`/`end` around unbracketed multi-statement bodies.
    pub wrap_multiline_blocks: bool,
    /// Join `end` and a following `else` on one line.
    pub inline_end_else: bool,
    /// A comma sits tight and is followed by one space.
    pub space_after_comma: bool,
    /// No space between a called name and its `(`.
    pub remove_call_space: bool,
    /// The widest line allowed; 0 disables the limit.
    pub max_line_length: usize,
    /// Line up the colons of `case` and `randcase` branches.
    pub align_case_colon: bool,
    /// Split lines longer than the maximum.
    pub auto_wrap_long_lines: bool,
}

/// The built-in defaults.
pub open spec fn default_config() -> FormatConfig {
    FormatConfig {
        indent_width: 2,
        use_tabs: false,
        align_preprocessor: true,
        wrap_multiline_blocks: true,
        inline_end_else: true,
        space_after_comma: true,
        remove_call_space: true,
        max_line_length: 100,
        align_case_colon: true,
        auto_wrap_long_lines: false,
    }
}

/// A usable configuration: indentation is never zero wide.
pub open spec fn valid_config(c: FormatConfig) -> bool {
    c.indent_width > 0
}

/// `c` with a zero indent width replaced by 2; every other option kept.
pub open spec fn corrected(c: FormatConfig) -> FormatConfig {
    if c.indent_width == 0 {
        FormatConfig { indent_width: 2, ..c }
    } else {
        c
    }
}

impl Default for FormatConfig {
    fn default() -> (r: Self)
        ensures
            r == default_config(),
    {
        FormatConfig {
            indent_width: 2,
            use_tabs: false,
            align_preprocessor: true,
            wrap_multiline_blocks: true,
            inline_end_else: true,
            space_after_comma: true,
            remove_call_space: true,
            max_line_length: 100,
            align_case_colon: true,
            auto_wrap_long_lines: false,
        }
    }
}

impl FormatConfig {
    /// This configuration with an indent width of 0 corrected to 2.
    pub fn corrected(self) -> (r: FormatConfig)
        ensures
            r == corrected(self),
            valid_config(r),
    {
        let mut c = self;
        if c.indent_width == 0 {
            c.indent_width = 2;
        }
        c
    }
}

/// Chooses the configuration of a run: the one read from a configuration
/// file, corrected, when there is one, and the defaults otherwise.
pub fn load_config(from_file: Option<FormatConfig>) -> (r: FormatConfig)
    ensures
        valid_config(r),
        from_file matches Some(c) ==> r == corrected(c),
        from_file is None ==> r == default_config(),
{
    match from_file {
        Some(c) => c.corrected(),
        None => FormatConfig::default(),
    }
}

/// A zero indent width is corrected to 2 and is never an error: loading a
/// configuration always succeeds, and everything else in it is kept.
pub proof fn lemma_zero_indent_coerced(c: FormatConfig)
    requires
        c.indent_width == 0,
    ensures
        corrected(c).indent_width == 2,
        corrected(c) == (FormatConfig { indent_width: 2, ..c }),
        valid_config(corrected(c)),
{
}

} // verus!
