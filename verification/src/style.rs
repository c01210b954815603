//! How a run of marked text is painted.
//!
//! Colors are named here and looked up in the theme by whoever paints.

use vstd::prelude::*;

use crate::mark::{HighlightColor, MarkKind, TextColor};

verus! {

/// A color of the theme.
#[derive(Clone, Copy, Debug, PartialEq, Eq, Structural)]
pub enum Tint {
    CodeBackground,
    CodeForeground,
    Link,
    Highlight(Option<HighlightColor>),
    Text(TextColor),
    Primary,
    Accent,
    CommentFill,
    CommentAccent,
}

/// A line of one pixel under the text, in `color` or in that of the text.
#[derive(Clone, Copy, Debug, PartialEq, Eq, Structural)]
pub struct UnderlineStyle {
    pub color: Option<Tint>,
}

/// The style of a run.
#[derive(Clone, Copy, Debug, PartialEq, Eq, Structural)]
pub struct HighlightStyle {
    pub bold: bool,
    pub italic: bool,
    pub underline: Option<UnderlineStyle>,
    pub strikethrough: bool,
    pub background_color: Option<Tint>,
    pub color: Option<Tint>,
}

/// The style of unmarked text.
pub open spec fn plain_style() -> HighlightStyle {
    HighlightStyle {
        bold: false,
        italic: false,
        underline: None,
        strikethrough: false,
        background_color: None,
        color: None,
    }
}

/// `style` with one more mark painted over it.
pub open spec fn painted(style: HighlightStyle, kind: crate::mark::KindView) -> HighlightStyle {
    match kind {
        crate::mark::KindView::Bold => HighlightStyle { bold: true, ..style },
        crate::mark::KindView::Italic => HighlightStyle { italic: true, ..style },
        crate::mark::KindView::Underline => HighlightStyle {
            underline: Some(UnderlineStyle { color: None }),
            ..style
        },
        crate::mark::KindView::Strike => HighlightStyle { strikethrough: true, ..style },
        crate::mark::KindView::Code => HighlightStyle {
            background_color: Some(Tint::CodeBackground),
            color: Some(Tint::CodeForeground),
            ..style
        },
        crate::mark::KindView::Link(_) => HighlightStyle {
            color: Some(Tint::Link),
            underline: Some(UnderlineStyle { color: None }),
            ..style
        },
        crate::mark::KindView::Highlight(color) => HighlightStyle {
            background_color: Some(Tint::Highlight(color)),
            ..style
        },
        crate::mark::KindView::TextColor(color) => HighlightStyle {
            color: Some(Tint::Text(color)),
            ..style
        },
        crate::mark::KindView::Mention(_) => HighlightStyle {
            color: Some(Tint::Primary),
            background_color: Some(Tint::Accent),
            ..style
        },
        crate::mark::KindView::Comment(_) => HighlightStyle {
            background_color: Some(Tint::CommentFill),
            underline: Some(UnderlineStyle { color: Some(Tint::CommentAccent) }),
            ..style
        },
        crate::mark::KindView::Superscript => style,
        crate::mark::KindView::Subscript => style,
    }
}

/// The style of text that carries `kinds`: each is painted over those before
/// it, so where two set one thing the later one shows.
pub open spec fn style_of(kinds: Seq<crate::mark::KindView>) -> HighlightStyle
    decreases kinds.len(),
{
    if kinds.len() == 0 {
        plain_style()
    } else {
        painted(style_of(kinds.drop_last()), kinds.last())
    }
}

/// Turn a run's marks into the style it is painted with.
pub fn highlight_style(kinds: &Vec<MarkKind>) -> (style: HighlightStyle)
    ensures
        style == style_of(crate::mark::kind_views(kinds@)),
{
    let ghost views = crate::mark::kind_views(kinds@);
    let mut style = HighlightStyle {
        bold: false,
        italic: false,
        underline: None,
        strikethrough: false,
        background_color: None,
        color: None,
    };
    let mut i: usize = 0;
    while i < kinds.len()
        invariant
            views == crate::mark::kind_views(kinds@),
            i <= kinds@.len(),
            style == style_of(views.take(i as int)),
        decreases kinds@.len() - i,
    {
        proof {
            assert(views.take(i + 1).drop_last() =~= views.take(i as int));
            assert(views.take(i + 1).last() == kinds@[i as int]@);
        }
        match &kinds[i] {
            MarkKind::Bold => {
                style.bold = true;
            },
            MarkKind::Italic => {
                style.italic = true;
            },
            MarkKind::Underline => {
                style.underline = Some(UnderlineStyle { color: None });
            },
            MarkKind::Strike => {
                style.strikethrough = true;
            },
            MarkKind::Code => {
                style.background_color = Some(Tint::CodeBackground);
                style.color = Some(Tint::CodeForeground);
            },
            MarkKind::Link(_) => {
                style.color = Some(Tint::Link);
                style.underline = Some(UnderlineStyle { color: None });
            },
            MarkKind::Highlight(color) => {
                style.background_color = Some(Tint::Highlight(*color));
            },
            MarkKind::TextColor(color) => {
                style.color = Some(Tint::Text(*color));
            },
            MarkKind::Mention(_) => {
                style.color = Some(Tint::Primary);
                style.background_color = Some(Tint::Accent);
            },
            MarkKind::Comment(_) => {
                style.background_color = Some(Tint::CommentFill);
                style.underline = Some(UnderlineStyle { color: Some(Tint::CommentAccent) });
            },
            MarkKind::Superscript => {},
            MarkKind::Subscript => {},
        }
        i = i + 1;
    }
    assert(views.take(i as int) =~= views);
    style
}

} // verus!
