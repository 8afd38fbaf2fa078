//! Styles: inheritable properties and layout properties.

use vstd::prelude::*;
use crate::canvas::Rgba;

verus! {

/// A length as written in a document.
#[derive(Clone, Copy, Debug, PartialEq, Eq, Structural)]
pub enum LengthUnit {
    Auto,
    Px(u32),
    Percentage(u32),
}

/// Properties that a node takes from its nearest ancestor when it does not
/// set them itself.
#[derive(Clone, Copy, Debug, PartialEq, Eq, Structural)]
pub struct InheritableStyle {
    pub border_color: Option<Rgba>,
    pub border_radius: Option<u32>,
    pub color: Option<Rgba>,
    pub font_size: Option<u32>,
    pub line_height: Option<u32>,
}

/// The style of one node.
#[derive(Clone, Copy, Debug, PartialEq, Eq, Structural)]
pub struct Style {
    pub width: LengthUnit,
    pub height: LengthUnit,
    pub padding: u32,
    pub border_width: u32,
    pub background_color: Option<Rgba>,
    pub inheritable_style: InheritableStyle,
}

/// A field set on the child wins; otherwise the parent's value is taken.
pub open spec fn pick<T>(child: Option<T>, parent: Option<T>) -> Option<T> {
    if child.is_some() { child } else { parent }
}

/// The inheritable style of a child after it has inherited from `parent`.
pub open spec fn inherit_spec(child: InheritableStyle, parent: InheritableStyle) -> InheritableStyle {
    InheritableStyle {
        border_color: pick(child.border_color, parent.border_color),
        border_radius: pick(child.border_radius, parent.border_radius),
        color: pick(child.color, parent.color),
        font_size: pick(child.font_size, parent.font_size),
        line_height: pick(child.line_height, parent.line_height),
    }
}

fn pick_exec<T: Copy>(child: Option<T>, parent: Option<T>) -> (r: Option<T>)
    ensures
        r == pick(child, parent),
{
    match child {
        Some(v) => Some(v),
        None => parent,
    }
}

/// A child's style after it has inherited from `parent`: the inheritable
/// fields merged, everything else the child's own.
pub open spec fn inherited_style(child: Style, parent: Style) -> Style {
    Style { inheritable_style: inherit_spec(child.inheritable_style, parent.inheritable_style), ..child }
}

/// A child that sets no border colour takes its parent's once it inherits;
/// one that sets its own keeps it.
pub proof fn lemma_border_color_inherited(child: Style, parent: Style)
    ensures
        child.inheritable_style.border_color is None ==> inherited_style(child, parent).inheritable_style.border_color
            == parent.inheritable_style.border_color,
        child.inheritable_style.border_color is Some ==> inherited_style(child, parent).inheritable_style.border_color
            == child.inheritable_style.border_color,
{
}

impl InheritableStyle {
    /// A style that sets nothing.
    pub fn empty() -> (r: InheritableStyle)
        ensures
            r.border_color.is_none(),
            r.border_radius.is_none(),
            r.color.is_none(),
            r.font_size.is_none(),
            r.line_height.is_none(),
    {
        InheritableStyle {
            border_color: None,
            border_radius: None,
            color: None,
            font_size: None,
            line_height: None,
        }
    }
}

impl Style {
    /// A style that sets nothing: automatic size, no padding, no border, no
    /// background.
    pub fn empty() -> (r: Style)
        ensures
            r.width == LengthUnit::Auto,
            r.height == LengthUnit::Auto,
            r.padding == 0,
            r.border_width == 0,
            r.background_color.is_none(),
            r.inheritable_style == (InheritableStyle {
                border_color: None,
                border_radius: None,
                color: None,
                font_size: None,
                line_height: None,
            }),
    {
        Style {
            width: LengthUnit::Auto,
            height: LengthUnit::Auto,
            padding: 0,
            border_width: 0,
            background_color: None,
            inheritable_style: InheritableStyle::empty(),
        }
    }

    /// Fills every inheritable field that this style leaves unset with the
    /// parent's value; fields set here and layout fields are kept.
    pub fn inherit(&mut self, parent: &Style)
        ensures
            *final(self) == inherited_style(*old(self), *parent),
    {
        let c = self.inheritable_style;
        let p = parent.inheritable_style;
        self.inheritable_style = InheritableStyle {
            border_color: pick_exec(c.border_color, p.border_color),
            border_radius: pick_exec(c.border_radius, p.border_radius),
            color: pick_exec(c.color, p.color),
            font_size: pick_exec(c.font_size, p.font_size),
            line_height: pick_exec(c.line_height, p.line_height),
        };
    }
}

} // verus!
