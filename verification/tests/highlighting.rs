//! The highlighting types: style resolution and lossless rendering.

use fjord::syntax::{
    apply_theme, render, Highlight, HighlightGroup, ResolvedStyle, Rgb, Span, Style, Theme,
};

struct WholeInputHighlighter;

impl Highlight for WholeInputHighlighter {
    fn highlight<'input>(&self, input: &'input str) -> Vec<Span<'input>> {
        // one keyword span for a leading "let", the rest unhighlighted
        if let Some(rest) = input.strip_prefix("let") {
            vec![
                Span { text: "let", group: Some(HighlightGroup::Keyword) },
                Span { text: rest, group: None },
            ]
        } else {
            vec![Span { text: input, group: None }]
        }
    }
}

struct TwoColorTheme;

impl Theme for TwoColorTheme {
    fn default_style(&self) -> ResolvedStyle {
        ResolvedStyle {
            fg_color: Rgb { r: 1, g: 2, b: 3 },
            bg_color: Rgb { r: 9, g: 9, b: 9 },
        }
    }

    fn style(&self, _group: HighlightGroup) -> Style {
        Style {
            fg_color: Some(Rgb { r: 200, g: 0, b: 0 }),
            bg_color: None,
        }
    }
}

#[test]
fn style_new_has_no_colors() {
    let style = Style::new();
    assert_eq!(style.fg_color, None);
    assert_eq!(style.bg_color, None);
}

#[test]
fn resolve_fills_missing_colors_from_the_fallback() {
    let fallback = ResolvedStyle {
        fg_color: Rgb { r: 1, g: 2, b: 3 },
        bg_color: Rgb { r: 9, g: 9, b: 9 },
    };
    let style = Style {
        fg_color: Some(Rgb { r: 200, g: 0, b: 0 }),
        bg_color: None,
    };
    let resolved = style.resolve(fallback);
    assert_eq!(resolved.fg_color, Rgb { r: 200, g: 0, b: 0 });
    assert_eq!(resolved.bg_color, Rgb { r: 9, g: 9, b: 9 });
}

#[test]
fn apply_theme_keeps_every_fragment() {
    let spans = vec![
        Span { text: "let", group: Some(HighlightGroup::Keyword) },
        Span { text: " a = 1", group: None },
    ];
    let theme = TwoColorTheme;
    let rendered = apply_theme(spans, theme.style(HighlightGroup::Keyword), theme.default_style());
    assert_eq!(rendered.len(), 2);
    assert_eq!(rendered[0].0, "let");
    assert_eq!(rendered[0].1.fg_color, Rgb { r: 200, g: 0, b: 0 });
    assert_eq!(rendered[0].1.bg_color, Rgb { r: 9, g: 9, b: 9 });
    assert_eq!(rendered[1].0, " a = 1");
    assert_eq!(rendered[1].1, theme.default_style());
}

#[test]
fn render_resolves_against_the_theme() {
    let rendered = render("let a = 1", WholeInputHighlighter, TwoColorTheme);
    assert_eq!(rendered.len(), 2);
    // the keyword gets the theme's foreground over the default background
    assert_eq!(rendered[0].1.fg_color, Rgb { r: 200, g: 0, b: 0 });
    assert_eq!(rendered[0].1.bg_color, Rgb { r: 9, g: 9, b: 9 });
    // unhighlighted text gets the default style whole
    assert_eq!(rendered[1].1.fg_color, Rgb { r: 1, g: 2, b: 3 });
    let joined: String = rendered.iter().map(|(t, _)| *t).collect();
    assert_eq!(joined, "let a = 1");
}
