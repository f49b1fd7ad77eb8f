use vstd::prelude::*;

verus! {

/// The line break written wherever a line ends.
#[derive(Clone, Copy, Debug, PartialEq, Eq, Structural)]
pub enum LineBreak {
    /// `"\n"`
    Lf,
    /// `"\r\n"`
    Crlf,
}

/// The characters that make up indentation.
#[derive(Clone, Copy, Debug, PartialEq, Eq, Structural)]
pub enum IndentKind {
    /// Indentation of `n` columns is `n` spaces.
    Space,
    /// Indentation of `n` columns is `n / tab_size` tabs and then
    /// `n % tab_size` spaces.
    Tab,
}

/// How the width of a piece of text is counted.
#[derive(Clone, Copy, Debug, PartialEq, Eq, Structural)]
pub enum TextMeasure {
    /// One column per character.
    Chars,
    /// The displayed width in terminal cells of the Unicode text.
    UnicodeWidth,
}

/// Print control options: line break, indentation, width budget.
#[derive(Clone, Copy, Debug)]
pub struct PrintOptions {
    /// The line break of each line; LF by default.
    pub line_break: LineBreak,
    /// Spaces or tabs for indentation; spaces by default.
    pub indent_kind: IndentKind,
    /// The column that the printer tries not to pass; 80 by default. A text
    /// longer than this still overflows.
    pub width: usize,
    /// The columns that one tab stands for; 2 by default. It must not be zero.
    pub tab_size: usize,
    /// How text width is counted; one column per character by default.
    pub measure: TextMeasure,
}

impl Default for LineBreak {
    fn default() -> (r: LineBreak)
        ensures
            r == LineBreak::Lf,
    {
        LineBreak::Lf
    }
}

impl Default for IndentKind {
    fn default() -> (r: IndentKind)
        ensures
            r == IndentKind::Space,
    {
        IndentKind::Space
    }
}

impl Default for TextMeasure {
    fn default() -> (r: TextMeasure)
        ensures
            r == TextMeasure::Chars,
    {
        TextMeasure::Chars
    }
}

impl Default for PrintOptions {
    fn default() -> (r: PrintOptions)
        ensures
            r.line_break == LineBreak::Lf,
            r.indent_kind == IndentKind::Space,
            r.width == 80,
            r.tab_size == 2,
            r.measure == TextMeasure::Chars,
    {
        PrintOptions {
            line_break: LineBreak::Lf,
            indent_kind: IndentKind::Space,
            width: 80,
            tab_size: 2,
            measure: TextMeasure::Chars,
        }
    }
}

} // verus!
