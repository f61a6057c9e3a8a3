//! The tag bar itself: a horizontal list of one icon per tag, built from
//! the decoded tag state, plus the standalone tag button used by the
//! command-driven variant of the bar.
//!
//! Each tag index gets one 60 by 60 icon. A focused tag shows a slot and a
//! clickable highlight button whose action refocuses that tag; an occupied
//! tag shows the slot with the occupied highlight; an empty tag shows the
//! plain ground.

use vstd::prelude::*;

verus! {

use crate::surface::Surface;
use crate::tags::tag_in_mask;
use crate::tags::tag_occupied;
use crate::tags::is_tag_in_mask;
use crate::tags::is_tag_occupied;
use crate::widget::Damage;
use crate::widget::Input;
use crate::widget::Orientation;
use crate::widget::Widget;
use crate::widget::WidgetView;
use crate::widget::dispatch;
use crate::widget::hit_matches;
use crate::widget::render_spec;
use crate::widget::sum_widths;
use crate::widget::sum_heights;
use crate::widget::max_widths;
use crate::widget::max_heights;
use crate::widget::spec_height;
use crate::widget::spec_width;
use crate::widget::view_of;
use crate::widget::wf;

/// The bar's ground color.
pub const BG0: u32 = 0xff_26_25_25;

/// The bar's fill and the default icon color.
pub const BG1: u32 = 0xff_33_32_32;

/// The slot color behind a highlight.
pub const BG2: u32 = 0xff_40_3e_3e;

/// The focused-tag highlight.
pub const YEL: u32 = 0xff_c6_aa_82;

/// The occupied-tag highlight, and a pressed button's flash.
pub const GRN: u32 = 0xff_98_96_7e;

/// The urgent-tag highlight.
pub const RED: u32 = 0xff_b7_66_66;

/// The icon of a focused tag: ground, slot, and a button showing the
/// focused highlight whose action is that tag's mask.
pub open spec fn focused_icon(n: u32) -> WidgetView {
    WidgetView::Node {
        width: 60,
        height: 60,
        layers: seq![
            WidgetView::Rectangle { width: 60, height: 60, color: BG0 },
            WidgetView::Rectangle { width: 24, height: 24, color: BG2 },
            WidgetView::Button {
                pressed: false,
                pressed_color: GRN,
                action: 1u32 << n,
                child: Box::new(WidgetView::Rectangle { width: 20, height: 20, color: YEL }),
            },
        ],
    }
}

/// The icon of an occupied, unfocused tag: ground, slot and the occupied
/// highlight.
pub open spec fn occupied_icon() -> WidgetView {
    WidgetView::Node {
        width: 60,
        height: 60,
        layers: seq![
            WidgetView::Rectangle { width: 60, height: 60, color: BG0 },
            WidgetView::Rectangle { width: 24, height: 24, color: BG2 },
            WidgetView::Rectangle { width: 20, height: 20, color: GRN },
        ],
    }
}

/// The icon of an empty tag: the plain ground.
pub open spec fn plain_icon() -> WidgetView {
    WidgetView::Node {
        width: 60,
        height: 60,
        layers: seq![
            WidgetView::Rectangle { width: 60, height: 60, color: BG0 },
            WidgetView::Rectangle { width: 60, height: 60, color: BG0 },
        ],
    }
}

/// The icon tag index `n` gets: focused wins over occupied, occupied over
/// empty. Every set bit of `focused` is highlighted independently.
pub open spec fn icon_for(focused: u32, occupied: Seq<u32>, n: u32) -> WidgetView {
    if tag_in_mask(focused, n) {
        focused_icon(n)
    } else if tag_occupied(occupied, n) {
        occupied_icon()
    } else {
        plain_icon()
    }
}

/// Builds the bar for the given tag state: a horizontal list, margin 10,
/// over the bar fill, holding one icon for each of the `amount` tags in tag
/// order.
pub fn create_widget(focused: u32, amount: u32, occupied: &Vec<u32>) -> (r: Widget)
    requires
        amount <= 32,
    ensures
        view_of(r) matches WidgetView::List { orientation, margin, color, children }
            && orientation == Orientation::Horizontal && margin == 10 && color == BG1
            && children.len() == amount && (forall|n: u32|
            0 <= n < amount ==> children[n as int] == icon_for(focused, occupied@, n)),
        wf(view_of(r)),
        spec_width(view_of(r)) == 70 * amount + 10,
        spec_height(view_of(r)) == if amount > 0 {
            80int
        } else {
            20int
        },
{
    let mut bar = Widget::list(Orientation::Horizontal);
    bar.set_content(BG1);
    bar.set_margin(10);
    let mut n: u32 = 0;
    while n < amount
        invariant
            amount <= 32,
            n <= amount,
            wf(view_of(bar)),
            view_of(bar) matches WidgetView::List { orientation, margin, color, children }
                && orientation == Orientation::Horizontal && margin == 10 && color == BG1
                && children.len() == n && (forall|j: u32|
                0 <= j < n ==> children[j as int] == icon_for(focused, occupied@, j))
                && sum_widths(children) == 60 * n
                && max_heights(children) == (if n > 0 {
                60int
            } else {
                0int
            }),
        decreases amount - n,
    {
        let icon = build_icon(focused, n, occupied);
        let ghost iv = view_of(icon);
        let ghost before = match view_of(bar) {
            WidgetView::List { children, .. } => children,
            _ => Seq::empty(),
        };
        let res = bar.add(icon);
        proof {
            assert(before.push(iv).drop_last() =~= before);
            assert(before.push(iv).last() == iv);
            assert(sum_widths(before.push(iv)) == 60 * (n + 1));
            assert(sum_heights(before.push(iv)) == sum_heights(before) + 60);
            assert(max_widths(before.push(iv)) == (if 60 > max_widths(before) {
                60int
            } else {
                max_widths(before)
            }));
            assert(max_heights(before.push(iv)) == 60);
            assert(before.push(iv).len() == n + 1);
            let lv = (WidgetView::List {
                orientation: Orientation::Horizontal,
                margin: 10,
                color: 0,
                children: before.push(iv),
            });
            assert(spec_width(lv) == sum_widths(before.push(iv)) + 10 * (before.push(iv).len()
                + 1));
            assert(spec_width(lv) == 70 * n + 80);
            assert(spec_height(lv) == 80);
            assert(res is Ok);
        }
        n = n + 1;
    }
    bar
}

/// A tag-state command pushed at a [`TagButton`]: which tags are focused,
/// which urgent, and which masks the open views carry.
#[allow(inconsistent_fields)]
pub enum TagCommand {
    Focused { tags: u32 },
    Urgent { tags: u32 },
    Occupied { tags: Vec<u32> },
}

/// True when some mask in `tags` shares a bit with `tag`.
pub open spec fn mask_hits(tags: Seq<u32>, tag: u32) -> bool {
    exists|i: int| 0 <= i < tags.len() && tags[i] & tag != 0
}

/// `v` with its rectangle child recolored: the one change a tag-state
/// command can make to a button.
pub open spec fn recolor(v: WidgetView, color: u32) -> WidgetView {
    match v {
        WidgetView::Button { pressed, pressed_color, action, child } => WidgetView::Button {
            pressed,
            pressed_color,
            action,
            child: Box::new(
                match *child {
                    WidgetView::Rectangle { width, height, .. } => WidgetView::Rectangle {
                        width,
                        height,
                        color,
                    },
                    other => other,
                },
            ),
        },
        other => other,
    }
}

/// One tag's button in the command-driven bar: a clickable square icon
/// whose color tracks the tag's state, and whose action is the tag's mask.
pub struct TagButton {
    pub tag: u32,
    pub button: Widget,
}

/// A widget and its view are the same variant.
proof fn lemma_view_variant(w: Widget)
    ensures
        (view_of(w) is Button) == (w is Button),
        (view_of(w) is Rectangle) == (w is Rectangle),
{
    match w {
        Widget::Rectangle { .. } => {},
        Widget::Border { .. } => {},
        Widget::Background { .. } => {},
        Widget::Node { .. } => {},
        Widget::List { .. } => {},
        Widget::Button { .. } => {},
    }
}

/// A widget whose view is a button wrapping a rectangle is itself a button
/// wrapping a rectangle.
proof fn lemma_button_shape(w: Widget)
    requires
        view_of(w) matches WidgetView::Button { child, .. } && (*child) is Rectangle,
    ensures
        w matches Widget::Button { child, .. } && (*child) is Rectangle,
{
    lemma_view_variant(w);
    match w {
        Widget::Button { child, .. } => {
            lemma_view_variant(*child);
        },
        _ => {},
    }
}

/// A tag button is a button wrapping a plain rectangle icon.
pub open spec fn tb_wf(tb: TagButton) -> bool {
    tb.button matches Widget::Button { child, .. } && (*child) matches Widget::Rectangle { .. }
}

impl TagButton {
    /// A button for the tag `tag` (a mask) with a square icon of the given
    /// side, in the default color.
    pub fn new(tag: u32, icon_size: u32) -> (r: TagButton)
        ensures
            r.tag == tag,
            tb_wf(r),
            view_of(r.button) == (WidgetView::Button {
                pressed: false,
                pressed_color: GRN,
                action: tag,
                child: Box::new(
                    WidgetView::Rectangle { width: icon_size, height: icon_size, color: BG1 },
                ),
            }),
    {
        let icon = Widget::Rectangle { width: icon_size, height: icon_size, color: BG1 };
        let r = TagButton {
            tag,
            button: Widget::Button {
                pressed: false,
                pressed_color: GRN,
                action: tag,
                child: Box::new(icon),
            },
        };
        proof {
            assert(view_of(Widget::Rectangle { width: icon_size, height: icon_size, color: BG1 })
                == (WidgetView::Rectangle { width: icon_size, height: icon_size, color: BG1 }));
        }
        r
    }

    pub fn get_width(&self) -> (w: u32)
        requires
            tb_wf(*self),
        ensures
            w == spec_width(view_of(self.button)),
    {
        proof {
            assert(self.button matches Widget::Button { child, .. } && wf(view_of(*child)));
            assert(wf(view_of(self.button)));
        }
        self.button.get_width()
    }

    pub fn get_height(&self) -> (h: u32)
        requires
            tb_wf(*self),
        ensures
            h == spec_height(view_of(self.button)),
    {
        proof {
            assert(self.button matches Widget::Button { child, .. } && wf(view_of(*child)));
            assert(wf(view_of(self.button)));
        }
        self.button.get_height()
    }

    /// Recolors the icon.
    pub fn set_color(&mut self, color: u32)
        requires
            tb_wf(*old(self)),
        ensures
            tb_wf(*final(self)),
            final(self).tag == old(self).tag,
            view_of(final(self).button) == recolor(view_of(old(self).button), color),
    {
        let fields: (bool, u32, u32, u32, u32) = match &self.button {
            Widget::Button { pressed, pressed_color, action, child } => {
                match &**child {
                    Widget::Rectangle { width, height, .. } => (
                        *pressed,
                        *pressed_color,
                        *action,
                        *width,
                        *height,
                    ),
                    _ => (false, 0, 0, 0, 0),
                }
            },
            _ => (false, 0, 0, 0, 0),
        };
        let icon = Widget::Rectangle { width: fields.3, height: fields.4, color };
        self.button = Widget::Button {
            pressed: fields.0,
            pressed_color: fields.1,
            action: fields.2,
            child: Box::new(icon),
        };
        proof {
            assert(old(self).button matches Widget::Button { child, .. } && view_of(*child)
                == (WidgetView::Rectangle { width: fields.3, height: fields.4, color: (*child)->Rectangle_color }));
            assert(view_of(Widget::Rectangle { width: fields.3, height: fields.4, color })
                == (WidgetView::Rectangle { width: fields.3, height: fields.4, color }));
            assert(view_of(self.button) == recolor(view_of(old(self).button), color));
        }
    }

    /// Applies one tag-state command: a focused or urgent mask sharing a
    /// bit with this button's tag recolors it to that state's highlight and
    /// otherwise leaves it alone; an occupied push recolors it to the
    /// occupied color when some view's mask shares a bit with the tag, and
    /// back to the default color when none does.
    pub fn send_command(&mut self, cmd: &TagCommand)
        requires
            tb_wf(*old(self)),
        ensures
            tb_wf(*final(self)),
            final(self).tag == old(self).tag,
            cmd matches TagCommand::Focused { tags } ==> view_of(final(self).button) == (if tags
                & old(self).tag != 0 {
                recolor(view_of(old(self).button), YEL)
            } else {
                view_of(old(self).button)
            }),
            cmd matches TagCommand::Urgent { tags } ==> view_of(final(self).button) == (if tags
                & old(self).tag != 0 {
                recolor(view_of(old(self).button), RED)
            } else {
                view_of(old(self).button)
            }),
            cmd matches TagCommand::Occupied { tags } ==> view_of(final(self).button) == (if
                mask_hits(tags@, old(self).tag) {
                recolor(view_of(old(self).button), BG2)
            } else {
                recolor(view_of(old(self).button), BG1)
            }),
    {
        match cmd {
            TagCommand::Focused { tags } => {
                if *tags & self.tag != 0 {
                    self.set_color(YEL);
                }
            },
            TagCommand::Urgent { tags } => {
                if *tags & self.tag != 0 {
                    self.set_color(RED);
                }
            },
            TagCommand::Occupied { tags } => {
                let tag = self.tag;
                let mut hit = false;
                let mut i: usize = 0;
                while i < tags.len()
                    invariant
                        i <= tags@.len(),
                        hit <==> exists|j: int| 0 <= j < i && tags@[j] & tag != 0,
                    decreases tags@.len() - i,
                {
                    if tags[i] & tag != 0 {
                        hit = true;
                    }
                    i = i + 1;
                }
                if hit {
                    self.set_color(BG2);
                } else {
                    self.set_color(BG1);
                }
            },
        }
    }

    /// Forwards one pointer event to the button.
    pub fn contains(&mut self, widget_x: u32, widget_y: u32, x: u32, y: u32, event: Input) -> (r:
        (Damage, Option<u32>))
        requires
            tb_wf(*old(self)),
            widget_x + spec_width(view_of(old(self).button)) <= u32::MAX,
            widget_y + spec_height(view_of(old(self).button)) <= u32::MAX,
            spec_width(view_of(old(self).button)) * spec_height(view_of(old(self).button))
                <= usize::MAX,
        ensures
            tb_wf(*final(self)),
            final(self).tag == old(self).tag,
            view_of(final(self).button) == dispatch(
                view_of(old(self).button),
                widget_x as int,
                widget_y as int,
                x as int,
                y as int,
                event,
            ).0,
            hit_matches(
                r.0,
                r.1,
                dispatch(
                    view_of(old(self).button),
                    widget_x as int,
                    widget_y as int,
                    x as int,
                    y as int,
                    event,
                ).1,
            ),
    {
        proof {
            assert(old(self).button matches Widget::Button { child, .. } && wf(view_of(*child)));
            assert(wf(view_of(old(self).button)));
        }
        let r = self.button.contains(widget_x, widget_y, x, y, event);
        proof {
            lemma_button_shape(self.button);
        }
        r
    }

    /// Renders the button into a fresh surface of exactly its size.
    pub fn to_surface(&self) -> (s: Surface)
        requires
            tb_wf(*self),
            spec_width(view_of(self.button)) * spec_height(view_of(self.button)) <= usize::MAX,
        ensures
            s.wf(),
            s.width == spec_width(view_of(self.button)),
            s.height == spec_height(view_of(self.button)),
            s.pixels@ == render_spec(view_of(self.button)),
    {
        proof {
            assert(self.button matches Widget::Button { child, .. } && wf(view_of(*child)));
            assert(wf(view_of(self.button)));
        }
        self.button.to_surface()
    }
}

/// Builds the one icon of tag `n` for the given tag state.
fn build_icon(focused: u32, n: u32, occupied: &Vec<u32>) -> (r: Widget)
    requires
        n < 32,
    ensures
        view_of(r) == icon_for(focused, occupied@, n),
        wf(view_of(r)),
        spec_width(view_of(r)) == 60,
        spec_height(view_of(r)) == 60,
{
    let bg = Widget::square(60, BG0);
    if is_tag_in_mask(focused, n) {
        let mut icon = Widget::node(bg);
        let sl = Widget::square(24, BG2);
        let hl = Widget::square(20, YEL);
        icon.center(sl).unwrap();
        let btn = Widget::button(hl, GRN, 1u32 << n);
        proof {
            assert(spec_width(WidgetView::Rectangle { width: 20, height: 20, color: YEL }) == 20);
            assert(spec_height(WidgetView::Rectangle { width: 20, height: 20, color: YEL }) == 20);
            assert(spec_width(view_of(btn)) == 20);
            assert(spec_height(view_of(btn)) == 20);
        }
        icon.center(btn).unwrap();
        proof {
            assert(view_of(icon) matches WidgetView::Node { layers, .. } && layers
                =~= focused_icon(n)->Node_layers);
        }
        icon
    } else if is_tag_occupied(occupied, n) {
        let mut icon = Widget::node(bg);
        let sl = Widget::square(24, BG2);
        let hl2 = Widget::square(20, GRN);
        icon.center(sl).unwrap();
        icon.center(hl2).unwrap();
        proof {
            assert(view_of(icon) matches WidgetView::Node { layers, .. } && layers
                =~= occupied_icon()->Node_layers);
        }
        icon
    } else {
        let mut icon = Widget::node(bg);
        let bg2 = Widget::square(60, BG0);
        icon.center(bg2).unwrap();
        proof {
            assert(view_of(icon) matches WidgetView::Node { layers, .. } && layers
                =~= plain_icon()->Node_layers);
        }
        icon
    }
}

} // verus!
