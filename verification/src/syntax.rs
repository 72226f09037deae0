//! Types and traits for implementing syntax highlighting.

use vstd::prelude::*;

verus! {

/// The set of possible syntactical forms text can be assigned.
///
/// As it is certain that more variants will be added in future, this
/// enum has been marked as non-exhaustive.
#[non_exhaustive]
#[derive(Clone, Copy, Debug, Eq, Hash, PartialEq, Structural)]
pub enum HighlightGroup {
    /// a language keyword
    Keyword,
}

/// An individual fragment of highlighted text.
#[derive(Clone, Copy, Debug)]
pub struct Span<'text> {
    /// the text being highlighted
    pub text: &'text str,
    /// the highlight group it may have been assigned
    pub group: Option<HighlightGroup>,
}

/// This trait is to be implemented by any type that syntax highlights
/// source code for a particular language, by taking in a string slice
/// and outputting a vector of spans.
///
/// An implementation is expected to be lossless: all input text should
/// also be contained in the `text` fields of the outputted spans, in
/// order. Nothing here can hold an implementor to that, so nothing
/// downstream relies on it.
pub trait Highlight {
    /// Splits the input into highlighted spans.
    fn highlight<'input>(&self, input: &'input str) -> Vec<Span<'input>>;
}

/// An RGB color.
#[derive(Clone, Copy, Debug, PartialEq, Eq, Structural)]
pub struct Rgb {
    /// red
    pub r: u8,
    /// green
    pub g: u8,
    /// blue
    pub b: u8,
}

/// The styling applied to a given highlight group.
#[derive(Clone, Copy, Debug, PartialEq, Eq, Structural)]
pub struct Style {
    /// its (optional) foreground color
    pub fg_color: Option<Rgb>,
    /// its (optional) background color
    pub bg_color: Option<Rgb>,
}

/// Identical to a `Style`, except that it must have both colors. The
/// renderer resolves every style it encounters against one of these, so
/// no fragment is left without a color.
#[derive(Clone, Copy, Debug, PartialEq, Eq, Structural)]
pub struct ResolvedStyle {
    /// its foreground color
    pub fg_color: Rgb,
    /// its background color
    pub bg_color: Rgb,
}

impl Style {
    /// Creates a new Style without a foreground or background colour.
    pub fn new() -> (r: Style)
        ensures
            r.fg_color is None,
            r.bg_color is None,
    {
        Style { fg_color: None, bg_color: None }
    }

    /// Fills the style's missing colors from a fully resolved fallback.
    pub fn resolve(self, resolved: ResolvedStyle) -> (r: ResolvedStyle)
        ensures
            r.fg_color == match self.fg_color {
                Some(c) => c,
                None => resolved.fg_color,
            },
            r.bg_color == match self.bg_color {
                Some(c) => c,
                None => resolved.bg_color,
            },
    {
        ResolvedStyle {
            fg_color: match self.fg_color {
                Some(c) => c,
                None => resolved.fg_color,
            },
            bg_color: match self.bg_color {
                Some(c) => c,
                None => resolved.bg_color,
            },
        }
    }
}

impl Default for Style {
    /// A style without a foreground or background colour.
    fn default() -> (r: Style)
        ensures
            r.fg_color is None,
            r.bg_color is None,
    {
        Style::new()
    }
}

/// A trait for defining syntax highlighting themes.
pub trait Theme {
    /// The style for unhighlighted text, and the fallback every
    /// partial style is resolved against: forcing the implementor to
    /// define all of this style's fields means no fragment can come out
    /// of rendering without a color.
    fn default_style(&self) -> ResolvedStyle;

    /// Provides a mapping from highlight groups to styles.
    fn style(&self, group: HighlightGroup) -> Style;
}

/// The style a fragment ends with: the default style whole where the
/// span has no group, otherwise the group's style with its missing
/// colors filled from the default.
pub open spec fn resolved_for(
    group: Option<HighlightGroup>,
    keyword_style: Style,
    default_style: ResolvedStyle,
) -> ResolvedStyle {
    match group {
        Some(..) => ResolvedStyle {
            fg_color: match keyword_style.fg_color {
                Some(c) => c,
                None => default_style.fg_color,
            },
            bg_color: match keyword_style.bg_color {
                Some(c) => c,
                None => default_style.bg_color,
            },
        },
        None => default_style,
    }
}

/// Resolves the style of each span against the theme's two answers:
/// its default style and its style for the one highlight group. Every
/// fragment's text is kept as it is, and every fragment's style is
/// fixed by its group.
pub fn apply_theme<'input>(
    spans: Vec<Span<'input>>,
    keyword_style: Style,
    default_style: ResolvedStyle,
) -> (r: Vec<(&'input str, ResolvedStyle)>)
    ensures
        r@.len() == spans@.len(),
        forall|k: int| 0 <= k < r@.len() ==> (#[trigger] r@[k]).0 == spans@[k].text,
        forall|k: int|
            0 <= k < r@.len() ==> (#[trigger] r@[k]).1 == resolved_for(
                spans@[k].group,
                keyword_style,
                default_style,
            ),
{
    let n = spans.len();
    let mut out: Vec<(&'input str, ResolvedStyle)> = Vec::new();
    let mut i: usize = 0;
    while i < n
        invariant
            n == spans@.len(),
            i <= n,
            out@.len() == i,
            forall|k: int| 0 <= k < i ==> (#[trigger] out@[k]).0 == spans@[k].text,
            forall|k: int|
                0 <= k < i ==> (#[trigger] out@[k]).1 == resolved_for(
                    spans@[k].group,
                    keyword_style,
                    default_style,
                ),
        decreases n - i,
    {
        let span = spans[i];
        let resolved = match span.group {
            Some(..) => keyword_style.resolve(default_style),
            None => default_style,
        };
        out.push((span.text, resolved));
        i = i + 1;
    }
    out
}

/// A convenience function that renders a given input text using a given
/// highlighter and theme, returning the highlighter's fragments with
/// the (fully resolved) styles to apply to them. The theme is asked
/// once for each of its answers; what the highlighter hands back is up
/// to its implementation, so only `apply_theme` carries a contract.
pub fn render<'input, H: Highlight, T: Theme>(
    input: &'input str,
    highlighter: H,
    theme: T,
) -> Vec<(&'input str, ResolvedStyle)> {
    let spans = highlighter.highlight(input);
    let keyword_style = theme.style(HighlightGroup::Keyword);
    let default_style = theme.default_style();
    apply_theme(spans, keyword_style, default_style)
}

} // verus!
