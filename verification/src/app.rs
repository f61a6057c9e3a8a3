//! The application: one widget tree, one retained rendering, one frame
//! buffer and one pool, driven by the display server's events.
//!
//! The shell around it performs what a [`Reaction`] asks — acknowledge a
//! configure, attach the fresh frame, declare the dirty rectangle, commit,
//! spawn the external command, release the server-side handles — and hands
//! back the next event. Every frame that reaches the screen is a fresh
//! buffer: a buffer is never written again once handed out, so the
//! compositor can read it in peace.

use vstd::prelude::*;

verus! {

use crate::bar::BG1;
use crate::bar::create_widget;
use crate::bar::icon_for;
use crate::buffer::Buffer;
use crate::buffer::Pool;
use crate::buffer::blit_bytes;
use crate::surface::Surface;
use crate::surface::TRANSPARENT;
use crate::surface::blit;
use crate::surface::fill;
use crate::tags::decode_view_tags;
use crate::tags::u32_le;
use crate::widget::Damage;
use crate::widget::Input;
use crate::widget::Orientation;
use crate::widget::Widget;
use crate::widget::WidgetView;
use crate::widget::dispatch;
use crate::widget::hit_matches;
use crate::widget::render_spec;
use crate::widget::spec_height;
use crate::widget::spec_width;
use crate::widget::view_of;
use crate::widget::wf;

/// How many tags the bar shows.
pub const NUM_TAGS: u32 = 7;

/// A dirty rectangle of the frame.
#[derive(Clone, Copy, PartialEq, Eq, Structural, Debug)]
pub struct Rect {
    pub x: u32,
    pub y: u32,
    pub width: u32,
    pub height: u32,
}

/// One event from the display server or the shell's timer.
#[allow(inconsistent_fields)]
pub enum Event {
    /// The size negotiation: the server offers a frame size under a serial
    /// the client must acknowledge.
    Configure { serial: u32, width: u32, height: u32 },
    /// The focused-tags bitmask changed.
    FocusedTags { tags: u32 },
    /// The per-view tag masks changed, as a raw little-endian byte stream.
    ViewTags { tags: Vec<u8> },
    /// The pointer acted at `(x, y)`.
    Pointer { x: u32, y: u32, input: Input },
    /// The bar should show itself again.
    Show,
    /// A scheduled auto-hide fired; it only applies if no newer state
    /// arrived since it was scheduled.
    Hide { generation: u64 },
    /// The server closed the surface: terminal.
    Closed,
}

/// What the shell must do after an event was handled.
pub struct Reaction {
    /// Acknowledge this configure serial.
    pub ack: Option<u32>,
    /// A fresh frame sits in the application's buffer: attach it.
    pub attach: bool,
    /// Declare this rectangle dirty on the surface.
    pub damage: Option<Rect>,
    /// Commit the surface.
    pub commit: bool,
    /// Focus this tag mask through the external command.
    pub spawn: Option<u32>,
    /// Release all server-side handles: the application is done.
    pub release: bool,
}

/// The view of the bar the application keeps for a given tag state: one
/// icon per tag in tag order, in a horizontal list over the bar fill.
pub open spec fn bar_children(focused: u32, occupied: Seq<u32>) -> Seq<WidgetView> {
    Seq::new(NUM_TAGS as nat, |n: int| icon_for(focused, occupied, n as u32))
}

pub open spec fn bar_view(focused: u32, occupied: Seq<u32>) -> WidgetView {
    WidgetView::List {
        orientation: Orientation::Horizontal,
        margin: 10,
        color: BG1,
        children: bar_children(focused, occupied),
    }
}

/// The tag bar, its state and its frame plumbing.
pub struct App {
    /// Whether the configure handshake has completed.
    pub configured: bool,
    /// Whether the bar is meant to be on screen.
    pub visible: bool,
    /// Terminal: after the close nothing is drawn again.
    pub closed: bool,
    /// The focused-tags bitmask last pushed.
    pub focused: u32,
    /// One mask per open view, in arrival order.
    pub tag_list: Vec<u32>,
    /// The frame width the server assigned.
    pub width: u32,
    /// The frame height the server assigned.
    pub height: u32,
    /// Grows on every state change; a scheduled hide is stale, and ignored,
    /// unless it carries the current value.
    pub generation: u64,
    /// The widget tree.
    pub overlay: Widget,
    /// The retained rendering of the tree; damage patches land here.
    pub pixmap: Surface,
    /// The frame last produced. Fresh on every attach.
    pub buffer: Buffer,
    /// The shared-memory backing.
    pub pool: Pool,
}

impl App {
    /// The tree is well-formed and renderable, and the pixel stores are
    /// consistent.
    pub open spec fn wf(&self) -> bool {
        &&& wf(view_of(self.overlay))
        &&& spec_width(view_of(self.overlay)) * spec_height(view_of(self.overlay)) <= usize::MAX
        &&& self.pixmap.wf()
        &&& self.buffer.wf()
    }

    /// A frame of the assigned size fits the machine and the pool.
    pub open spec fn frame_ok(&self) -> bool {
        &&& 4 * self.width as int <= usize::MAX
        &&& 4 * self.width as int * self.height as int <= self.pool.size
    }

    /// The buffer holds a fresh frame: the retained rendering composited
    /// into a zeroed buffer of the assigned size.
    pub open spec fn fresh_frame(&self) -> bool {
        &&& self.buffer.width == self.width
        &&& self.buffer.height == self.height
        &&& self.buffer.stride == 4 * self.width as int
        &&& self.buffer.data@ == blit_bytes(
            Seq::new((4 * self.width as int * self.height as int) as nat, |k: int| 0u8),
            4 * self.width as int,
            self.width as int,
            self.pixmap.pixels@,
            self.pixmap.width as int,
            self.pixmap.height as int,
            0,
            0,
        )
    }

    /// The buffers are the same frame.
    pub open spec fn same_buffer(a: Buffer, b: Buffer) -> bool {
        &&& a.width == b.width
        &&& a.height == b.height
        &&& a.stride == b.stride
        &&& a.data@ == b.data@
    }

    /// The surfaces hold the same picture.
    pub open spec fn same_surface(a: Surface, b: Surface) -> bool {
        &&& a.width == b.width
        &&& a.height == b.height
        &&& a.pixels@ == b.pixels@
    }

    /// Nothing observable changed between the two states.
    pub open spec fn same_state(a: App, b: App) -> bool {
        &&& b.configured == a.configured
        &&& b.visible == a.visible
        &&& b.closed == a.closed
        &&& b.focused == a.focused
        &&& b.tag_list@ == a.tag_list@
        &&& b.width == a.width
        &&& b.height == a.height
        &&& b.generation == a.generation
        &&& view_of(b.overlay) == view_of(a.overlay)
        &&& Self::same_surface(b.pixmap, a.pixmap)
        &&& Self::same_buffer(b.buffer, a.buffer)
        &&& b.pool == a.pool
    }

    /// A reaction that asks the shell for nothing.
    pub open spec fn idle(r: Reaction) -> bool {
        &&& r.ack is None
        &&& !r.attach
        &&& r.damage is None
        &&& !r.commit
        &&& r.spawn is None
        &&& !r.release
    }

    /// The bar has been rebuilt from the state in `pre` and a frame
    /// produced where the pool allows it; nothing else moved.
    pub open spec fn redraw_post(pre: App, post: App, r: Reaction) -> bool {
        &&& post.configured == pre.configured
        &&& post.visible == pre.visible
        &&& post.closed == pre.closed
        &&& post.focused == pre.focused
        &&& post.tag_list@ == pre.tag_list@
        &&& post.width == pre.width
        &&& post.height == pre.height
        &&& post.generation == pre.generation
        &&& post.pool == pre.pool
        &&& view_of(post.overlay) == bar_view(pre.focused, pre.tag_list@)
        &&& post.pixmap.width == spec_width(bar_view(pre.focused, pre.tag_list@))
        &&& post.pixmap.height == spec_height(bar_view(pre.focused, pre.tag_list@))
        &&& post.pixmap.pixels@ == render_spec(bar_view(pre.focused, pre.tag_list@))
        &&& r.ack is None && r.spawn is None && !r.release
        &&& r.attach == pre.frame_ok()
        &&& r.commit == pre.frame_ok()
        &&& (pre.frame_ok() ==> post.fresh_frame() && r.damage == Some(
            Rect { x: 0, y: 0, width: pre.width, height: pre.height },
        ))
        &&& (!pre.frame_ok() ==> Self::same_buffer(post.buffer, pre.buffer) && r.damage is None)
    }

    /// A fresh application around a widget tree and a pool, not yet
    /// configured, with an empty frame.
    pub fn new(overlay: Widget, pool: Pool) -> (a: App)
        requires
            wf(view_of(overlay)),
            spec_width(view_of(overlay)) * spec_height(view_of(overlay)) <= usize::MAX,
        ensures
            a.wf(),
            !a.configured,
            a.visible,
            !a.closed,
            a.focused == 0,
            a.tag_list@ == Seq::<u32>::empty(),
            a.width == 0,
            a.height == 0,
            a.generation == 0,
            view_of(a.overlay) == view_of(overlay),
            a.pixmap.pixels@ == render_spec(view_of(overlay)),
            a.pool == pool,
    {
        let pixmap = overlay.to_surface();
        let buffer = Buffer { width: 0, height: 0, stride: 0, data: Vec::new() };
        App {
            configured: false,
            visible: true,
            closed: false,
            focused: 0,
            tag_list: Vec::new(),
            width: 0,
            height: 0,
            generation: 0,
            overlay,
            pixmap,
            buffer,
            pool,
        }
    }

    /// Produces a fresh frame: the retained rendering composited into a
    /// zeroed buffer of the assigned size, clipped to it. Fails, keeping
    /// the last good frame, exactly when the pool cannot back such a
    /// buffer; the caller then retries on a later redraw.
    fn frame(&mut self) -> (ok: bool)
        requires
            old(self).wf(),
        ensures
            final(self).wf(),
            ok == old(self).frame_ok(),
            ok ==> final(self).fresh_frame(),
            !ok ==> Self::same_buffer(final(self).buffer, old(self).buffer),
            final(self).configured == old(self).configured,
            final(self).visible == old(self).visible,
            final(self).closed == old(self).closed,
            final(self).focused == old(self).focused,
            final(self).tag_list@ == old(self).tag_list@,
            final(self).width == old(self).width,
            final(self).height == old(self).height,
            final(self).generation == old(self).generation,
            view_of(final(self).overlay) == view_of(old(self).overlay),
            Self::same_surface(final(self).pixmap, old(self).pixmap),
            final(self).pool == old(self).pool,
    {
        let stride = match (self.width as usize).checked_mul(4) {
            Some(s) => s,
            Option::None => {
                return false;
            },
        };
        match Buffer::new(self.width, self.height, stride, &self.pool) {
            Ok(mut b) => {
                b.composite(&self.pixmap, 0, 0);
                self.buffer = b;
                true
            },
            Err(_) => false,
        }
    }

    /// Rebuilds the tree from the current tag state, re-renders it, and
    /// produces a frame where the pool allows it.
    pub fn redraw(&mut self) -> (r: Reaction)
        requires
            old(self).wf(),
        ensures
            final(self).wf(),
            Self::redraw_post(*old(self), *final(self), r),
    {
        let bar = create_widget(self.focused, NUM_TAGS, &self.tag_list);
        proof {
            lemma_bar_view(self.focused, self.tag_list@, view_of(bar));
        }
        self.overlay = bar;
        self.pixmap = self.overlay.to_surface();
        let ok = self.frame();
        Reaction {
            ack: None,
            attach: ok,
            damage: if ok {
                Some(Rect { x: 0, y: 0, width: self.width, height: self.height })
            } else {
                None
            },
            commit: ok,
            spawn: None,
            release: false,
        }
    }

    /// Applies one damage description, the state machine of change
    /// propagation: nothing; a rebuilt own tree; a patch composited into
    /// the retained rendering at its offset, with only that rectangle
    /// declared dirty; a whole replacement picture; or the teardown clear
    /// to full transparency. Every path that changed the picture ends in a
    /// fresh frame, a damage declaration and a commit.
    pub fn damage(&mut self, event: Damage) -> (r: Reaction)
        requires
            old(self).wf(),
            event matches Damage::Area { surface, .. } ==> surface.wf(),
            event matches Damage::All { surface } ==> surface.wf(),
        ensures
            final(self).wf(),
            r.ack is None && r.spawn is None && !r.release,
            final(self).configured == old(self).configured,
            final(self).visible == old(self).visible,
            final(self).closed == old(self).closed,
            final(self).focused == old(self).focused,
            final(self).tag_list@ == old(self).tag_list@,
            final(self).width == old(self).width,
            final(self).height == old(self).height,
            final(self).generation == old(self).generation,
            final(self).pool == old(self).pool,
            event is Nothing ==> Self::same_state(*old(self), *final(self)) && Self::idle(r),
            event is Own ==> Self::redraw_post(*old(self), *final(self), r),
            event matches Damage::Area { surface, x, y } ==> {
                &&& final(self).configured == old(self).configured
                &&& final(self).visible == old(self).visible
                &&& final(self).closed == old(self).closed
                &&& final(self).focused == old(self).focused
                &&& final(self).tag_list@ == old(self).tag_list@
                &&& final(self).width == old(self).width
                &&& final(self).height == old(self).height
                &&& final(self).generation == old(self).generation
                &&& final(self).pool == old(self).pool
                &&& view_of(final(self).overlay) == view_of(old(self).overlay)
                &&& final(self).pixmap.width == old(self).pixmap.width
                &&& final(self).pixmap.height == old(self).pixmap.height
                &&& final(self).pixmap.pixels@ == blit(
                    old(self).pixmap.pixels@,
                    old(self).pixmap.width as int,
                    surface.pixels@,
                    surface.width as int,
                    surface.height as int,
                    x as int,
                    y as int,
                )
                &&& r.attach == old(self).frame_ok()
                &&& r.commit == old(self).frame_ok()
                &&& (old(self).frame_ok() ==> final(self).fresh_frame() && r.damage == Some(
                    Rect { x, y, width: surface.width, height: surface.height },
                ))
                &&& (!old(self).frame_ok() ==> Self::same_buffer(final(self).buffer, old(self).buffer)
                    && r.damage is None)
            },
            event matches Damage::All { surface } ==> {
                &&& Self::same_surface(final(self).pixmap, surface)
                &&& view_of(final(self).overlay) == view_of(old(self).overlay)
                &&& final(self).width == old(self).width
                &&& final(self).height == old(self).height
                &&& final(self).pool == old(self).pool
                &&& r.attach == old(self).frame_ok()
                &&& r.commit == old(self).frame_ok()
                &&& (old(self).frame_ok() ==> final(self).fresh_frame() && r.damage == Some(
                    Rect { x: 0, y: 0, width: old(self).width, height: old(self).height },
                ))
                &&& (!old(self).frame_ok() ==> Self::same_buffer(final(self).buffer, old(self).buffer)
                    && r.damage is None)
            },
            event is Destroy ==> {
                &&& view_of(final(self).overlay) == view_of(old(self).overlay)
                &&& final(self).pixmap.width == old(self).pixmap.width
                &&& final(self).pixmap.height == old(self).pixmap.height
                &&& final(self).pixmap.pixels@ == fill(
                    old(self).pixmap.width as int,
                    old(self).pixmap.height as int,
                    TRANSPARENT,
                )
                &&& final(self).buffer.width == old(self).buffer.width
                &&& final(self).buffer.height == old(self).buffer.height
                &&& final(self).buffer.data@ == Seq::new(
                    old(self).buffer.data@.len(),
                    |k: int| 0u8,
                )
                &&& r.attach && r.commit && r.damage == Some(
                    Rect {
                        x: 0,
                        y: 0,
                        width: old(self).buffer.width,
                        height: old(self).buffer.height,
                    },
                )
            },
    {
        match event {
            Damage::Nothing => Reaction {
                ack: None,
                attach: false,
                damage: None,
                commit: false,
                spawn: None,
                release: false,
            },
            Damage::Own => self.redraw(),
            Damage::Area { surface, x, y } => {
                self.pixmap.composite(&surface, x, y);
                let ok = self.frame();
                Reaction {
                    ack: None,
                    attach: ok,
                    damage: if ok {
                        Some(Rect { x, y, width: surface.get_width(), height: surface.get_height() })
                    } else {
                        None
                    },
                    commit: ok,
                    spawn: None,
                    release: false,
                }
            },
            Damage::All { surface } => {
                self.pixmap = surface;
                let ok = self.frame();
                Reaction {
                    ack: None,
                    attach: ok,
                    damage: if ok {
                        Some(Rect { x: 0, y: 0, width: self.width, height: self.height })
                    } else {
                        None
                    },
                    commit: ok,
                    spawn: None,
                    release: false,
                }
            },
            Damage::Destroy => {
                self.pixmap.clear(TRANSPARENT);
                self.buffer.clear();
                let w = self.buffer.width;
                let h = self.buffer.height;
                Reaction {
                    ack: None,
                    attach: true,
                    damage: Some(Rect { x: 0, y: 0, width: w, height: h }),
                    commit: true,
                    spawn: None,
                    release: false,
                }
            },
        }
    }
}

/// The next generation: one more, until the counter is exhausted.
pub open spec fn gen_next(g: u64) -> u64 {
    if g < u64::MAX {
        (g + 1) as u64
    } else {
        g
    }
}

impl App {
    /// A reaction that asks the shell for nothing.
    fn idle_reaction() -> (r: Reaction)
        ensures
            Self::idle(r),
    {
        Reaction { ack: None, attach: false, damage: None, commit: false, spawn: None, release: false }
    }

    /// The width of the widget tree.
    pub fn get_width(&self) -> (w: u32)
        requires
            self.wf(),
        ensures
            w == spec_width(view_of(self.overlay)),
    {
        self.overlay.get_width()
    }

    /// The height of the widget tree.
    pub fn get_height(&self) -> (h: u32)
        requires
            self.wf(),
        ensures
            h == spec_height(view_of(self.overlay)),
    {
        self.overlay.get_height()
    }

    /// Forwards one pointer event into the widget tree, leaving the rest of
    /// the application alone. [`App::handle_event`] both dispatches and
    /// applies the damage; this is the bare query.
    pub fn contains(&mut self, widget_x: u32, widget_y: u32, x: u32, y: u32, event: Input) -> (r:
        (Damage, Option<u32>))
        requires
            old(self).wf(),
            widget_x + spec_width(view_of(old(self).overlay)) <= u32::MAX,
            widget_y + spec_height(view_of(old(self).overlay)) <= u32::MAX,
        ensures
            final(self).wf(),
            view_of(final(self).overlay) == dispatch(
                view_of(old(self).overlay),
                widget_x as int,
                widget_y as int,
                x as int,
                y as int,
                event,
            ).0,
            hit_matches(
                r.0,
                r.1,
                dispatch(
                    view_of(old(self).overlay),
                    widget_x as int,
                    widget_y as int,
                    x as int,
                    y as int,
                    event,
                ).1,
            ),
            final(self).configured == old(self).configured,
            final(self).visible == old(self).visible,
            final(self).closed == old(self).closed,
            final(self).focused == old(self).focused,
            final(self).tag_list@ == old(self).tag_list@,
            final(self).width == old(self).width,
            final(self).height == old(self).height,
            final(self).generation == old(self).generation,
            Self::same_surface(final(self).pixmap, old(self).pixmap),
            Self::same_buffer(final(self).buffer, old(self).buffer),
            final(self).pool == old(self).pool,
    {
        self.overlay.contains(widget_x, widget_y, x, y, event)
    }

    /// Handles one event: the top of the state machine. Unconfigured state
    /// buffers tag pushes for the first configure; a configure adopts the
    /// offered size, acknowledges, and redraws if the bar is meant to be
    /// seen; tag pushes rebuild and redraw once configured and visible;
    /// pointer input is dispatched into the tree and its damage applied; a
    /// stale hide is ignored; the close is terminal.
    pub fn handle_event(&mut self, ev: Event) -> (r: Reaction)
        requires
            old(self).wf(),
        ensures
            final(self).wf(),
            old(self).closed ==> Self::same_state(*old(self), *final(self)) && Self::idle(r),
            !old(self).closed ==> (match ev {
                Event::Configure { serial, width, height } => {
                    &&& final(self).configured
                    &&& final(self).width == width
                    &&& final(self).height == height
                    &&& final(self).visible == old(self).visible
                    &&& !final(self).closed
                    &&& final(self).focused == old(self).focused
                    &&& final(self).tag_list@ == old(self).tag_list@
                    &&& final(self).generation == old(self).generation
                    &&& final(self).pool.limit == old(self).pool.limit
                    &&& (4 * width as int * height as int <= old(self).pool.limit ==> final(self).pool.size == (if 4 * width as int * height as int > old(self).pool.size {
                        4 * width as int * height as int
                    } else {
                        old(self).pool.size as int
                    }))
                    &&& (4 * width as int * height as int > old(self).pool.limit ==> final(self).pool.size == old(self).pool.size)
                    &&& r.ack == Some(serial)
                    &&& r.spawn is None && !r.release
                    &&& (old(self).visible ==> {
                        &&& view_of(final(self).overlay) == bar_view(
                            old(self).focused,
                            old(self).tag_list@,
                        )
                        &&& final(self).pixmap.pixels@ == render_spec(
                            bar_view(old(self).focused, old(self).tag_list@),
                        )
                        &&& r.attach == r.commit
                        &&& r.attach == (4 * width as int <= usize::MAX && 4 * width as int
                            * height as int <= final(self).pool.size)
                        &&& (r.attach ==> final(self).fresh_frame() && r.damage == Some(
                            Rect { x: 0, y: 0, width, height },
                        ))
                        &&& (!r.attach ==> Self::same_buffer(final(self).buffer, old(self).buffer)
                            && r.damage is None)
                    })
                    &&& (!old(self).visible ==> view_of(final(self).overlay) == view_of(
                        old(self).overlay,
                    ) && Self::same_surface(final(self).pixmap, old(self).pixmap)
                        && Self::same_buffer(final(self).buffer, old(self).buffer) && !r.attach
                        && !r.commit && r.damage is None)
                },
                Event::FocusedTags { tags } => {
                    &&& final(self).focused == tags
                    &&& final(self).tag_list@ == old(self).tag_list@
                    &&& final(self).generation == gen_next(old(self).generation)
                    &&& final(self).configured == old(self).configured
                    &&& final(self).visible == old(self).visible
                    &&& !final(self).closed
                    &&& final(self).width == old(self).width
                    &&& final(self).height == old(self).height
                    &&& final(self).pool == old(self).pool
                    &&& r.ack is None && r.spawn is None && !r.release
                    &&& (old(self).configured && old(self).visible ==> {
                        &&& view_of(final(self).overlay) == bar_view(tags, old(self).tag_list@)
                        &&& final(self).pixmap.pixels@ == render_spec(
                            bar_view(tags, old(self).tag_list@),
                        )
                        &&& r.attach == r.commit
                        &&& r.attach == old(self).frame_ok()
                        &&& (r.attach ==> final(self).fresh_frame() && r.damage == Some(
                            Rect {
                                x: 0,
                                y: 0,
                                width: old(self).width,
                                height: old(self).height,
                            },
                        ))
                        &&& (!r.attach ==> Self::same_buffer(final(self).buffer, old(self).buffer)
                            && r.damage is None)
                    })
                    &&& (!(old(self).configured && old(self).visible) ==> view_of(
                        final(self).overlay,
                    ) == view_of(old(self).overlay) && Self::same_surface(
                        final(self).pixmap,
                        old(self).pixmap,
                    ) && Self::same_buffer(final(self).buffer, old(self).buffer) && !r.attach
                        && !r.commit && r.damage is None)
                },
                Event::ViewTags { tags } => {
                    &&& final(self).focused == old(self).focused
                    &&& final(self).tag_list@.len() == tags@.len() / 4
                    &&& (forall|i: int|
                        0 <= i < final(self).tag_list@.len() ==> final(self).tag_list@[i]
                            == u32_le(
                            tags@[4 * i],
                            tags@[4 * i + 1],
                            tags@[4 * i + 2],
                            tags@[4 * i + 3],
                        ))
                    &&& final(self).generation == gen_next(old(self).generation)
                    &&& final(self).configured == old(self).configured
                    &&& final(self).visible == old(self).visible
                    &&& !final(self).closed
                    &&& final(self).pool == old(self).pool
                    &&& r.ack is None && r.spawn is None && !r.release
                    &&& (old(self).configured && old(self).visible ==> {
                        &&& view_of(final(self).overlay) == bar_view(
                            old(self).focused,
                            final(self).tag_list@,
                        )
                        &&& final(self).pixmap.pixels@ == render_spec(
                            bar_view(old(self).focused, final(self).tag_list@),
                        )
                        &&& r.attach == r.commit
                        &&& r.attach == old(self).frame_ok()
                        &&& (r.attach ==> final(self).fresh_frame() && r.damage == Some(
                            Rect {
                                x: 0,
                                y: 0,
                                width: old(self).width,
                                height: old(self).height,
                            },
                        ))
                    })
                    &&& (!(old(self).configured && old(self).visible) ==> view_of(
                        final(self).overlay,
                    ) == view_of(old(self).overlay) && Self::same_surface(
                        final(self).pixmap,
                        old(self).pixmap,
                    ) && Self::same_buffer(final(self).buffer, old(self).buffer) && !r.attach
                        && !r.commit && r.damage is None)
                },
                Event::Pointer { x, y, input } => {
                    &&& final(self).configured == old(self).configured
                    &&& final(self).visible == old(self).visible
                    &&& !final(self).closed
                    &&& final(self).focused == old(self).focused
                    &&& final(self).tag_list@ == old(self).tag_list@
                    &&& final(self).generation == old(self).generation
                    &&& final(self).pool == old(self).pool
                    &&& r.ack is None && !r.release
                    &&& (old(self).configured && old(self).visible ==> {
                        let d = dispatch(
                            view_of(old(self).overlay),
                            0,
                            0,
                            x as int,
                            y as int,
                            input,
                        );
                        &&& view_of(final(self).overlay) == d.0
                        &&& (d.1 is Miss ==> Self::same_surface(
                            final(self).pixmap,
                            old(self).pixmap,
                        ) && Self::same_buffer(final(self).buffer, old(self).buffer) && !r.attach
                            && !r.commit && r.damage is None && r.spawn is None)
                        &&& (d.1 matches crate::widget::Hit::Patch {
                            pixels,
                            w,
                            h,
                            x: px,
                            y: py,
                            action,
                        } ==> {
                            &&& final(self).pixmap.pixels@ == blit(
                                old(self).pixmap.pixels@,
                                old(self).pixmap.width as int,
                                pixels,
                                w,
                                h,
                                px,
                                py,
                            )
                            &&& r.spawn == action
                            &&& r.attach == r.commit
                            &&& r.attach == old(self).frame_ok()
                            &&& (r.attach ==> final(self).fresh_frame() && r.damage == Some(
                                Rect { x: px as u32, y: py as u32, width: w as u32, height: h as u32 },
                            ))
                            &&& (!r.attach ==> Self::same_buffer(
                                final(self).buffer,
                                old(self).buffer,
                            ) && r.damage is None)
                        })
                    })
                    &&& (!(old(self).configured && old(self).visible) ==> Self::same_state(
                        *old(self),
                        *final(self),
                    ) && Self::idle(r))
                },
                Event::Show => {
                    &&& final(self).visible
                    &&& final(self).generation == gen_next(old(self).generation)
                    &&& final(self).configured == old(self).configured
                    &&& !final(self).closed
                    &&& final(self).focused == old(self).focused
                    &&& final(self).tag_list@ == old(self).tag_list@
                    &&& final(self).pool == old(self).pool
                    &&& r.ack is None && r.spawn is None && !r.release
                    &&& (old(self).configured ==> {
                        &&& view_of(final(self).overlay) == bar_view(
                            old(self).focused,
                            old(self).tag_list@,
                        )
                        &&& r.attach == r.commit
                        &&& r.attach == old(self).frame_ok()
                        &&& (r.attach ==> final(self).fresh_frame() && r.damage == Some(
                            Rect {
                                x: 0,
                                y: 0,
                                width: old(self).width,
                                height: old(self).height,
                            },
                        ))
                    })
                    &&& (!old(self).configured ==> view_of(final(self).overlay) == view_of(
                        old(self).overlay,
                    ) && Self::same_buffer(final(self).buffer, old(self).buffer) && !r.attach
                        && !r.commit)
                },
                Event::Hide { generation } => {
                    &&& (generation == old(self).generation && old(self).configured && old(self).visible ==> {
                        &&& !final(self).visible
                        &&& final(self).pixmap.pixels@ == fill(
                            old(self).pixmap.width as int,
                            old(self).pixmap.height as int,
                            TRANSPARENT,
                        )
                        &&& final(self).buffer.data@ == Seq::new(
                            old(self).buffer.data@.len(),
                            |k: int| 0u8,
                        )
                        &&& r.attach && r.commit
                    })
                    &&& (!(generation == old(self).generation && old(self).configured && old(self).visible) ==> Self::same_state(*old(self), *final(self)) && Self::idle(r))
                },
                Event::Closed => {
                    &&& final(self).closed
                    &&& r.release
                    &&& !r.attach && !r.commit && r.damage is None && r.ack is None && r.spawn
                        is None
                    &&& final(self).configured == old(self).configured
                    &&& final(self).visible == old(self).visible
                    &&& final(self).focused == old(self).focused
                    &&& final(self).tag_list@ == old(self).tag_list@
                    &&& final(self).generation == old(self).generation
                    &&& view_of(final(self).overlay) == view_of(old(self).overlay)
                    &&& Self::same_surface(final(self).pixmap, old(self).pixmap)
                    &&& Self::same_buffer(final(self).buffer, old(self).buffer)
                    &&& final(self).pool == old(self).pool
                },
            }),
    {
        if self.closed {
            return Self::idle_reaction();
        }
        match &ev {
            Event::Configure { serial, width, height } => {
                self.width = *width;
                self.height = *height;
                self.configured = true;
                let _resized = self.pool.resize(*width, *height);
                let mut r = if self.visible {
                    self.redraw()
                } else {
                    Self::idle_reaction()
                };
                r.ack = Some(*serial);
                r
            },
            Event::FocusedTags { tags } => {
                self.focused = *tags;
                if self.generation < u64::MAX {
                    self.generation = self.generation + 1;
                }
                if self.configured && self.visible {
                    self.redraw()
                } else {
                    Self::idle_reaction()
                }
            },
            Event::ViewTags { tags } => {
                self.tag_list = decode_view_tags(tags);
                if self.generation < u64::MAX {
                    self.generation = self.generation + 1;
                }
                if self.configured && self.visible {
                    self.redraw()
                } else {
                    Self::idle_reaction()
                }
            },
            Event::Pointer { x, y, input } => {
                if self.configured && self.visible {
                    let x = *x;
                    let y = *y;
                    let input = *input;
                    proof {
                        crate::widget::lemma_size_bounded(view_of(self.overlay));
                        crate::widget::lemma_size_nonneg(view_of(self.overlay));
                    }
                    let hit = self.overlay.contains(0, 0, x, y, input);
                    let mut r = self.damage(hit.0);
                    r.spawn = hit.1;
                    r
                } else {
                    Self::idle_reaction()
                }
            },
            Event::Show => {
                self.visible = true;
                if self.generation < u64::MAX {
                    self.generation = self.generation + 1;
                }
                if self.configured {
                    self.redraw()
                } else {
                    Self::idle_reaction()
                }
            },
            Event::Hide { generation } => {
                if *generation == self.generation && self.configured && self.visible {
                    self.visible = false;
                    self.damage(Damage::Destroy)
                } else {
                    Self::idle_reaction()
                }
            },
            Event::Closed => {
                self.closed = true;
                Reaction {
                    ack: None,
                    attach: false,
                    damage: None,
                    commit: false,
                    spawn: None,
                    release: true,
                }
            },
        }
    }
}

/// The bar `create_widget` builds is exactly `bar_view` of its state.
proof fn lemma_bar_view(focused: u32, occupied: Seq<u32>, v: WidgetView)
    requires
        v matches WidgetView::List { orientation, margin, color, children }
            && orientation == Orientation::Horizontal && margin == 10 && color == BG1
            && children.len() == NUM_TAGS && (forall|n: u32|
            0 <= n < NUM_TAGS ==> children[n as int] == icon_for(focused, occupied, n)),
    ensures
        v == bar_view(focused, occupied),
{
    match v {
        WidgetView::List { orientation, margin, color, children } => {
            assert forall|n: int| 0 <= n < NUM_TAGS implies children[n] == bar_children(
                focused,
                occupied,
            )[n] by {
                assert(children[n] == icon_for(focused, occupied, n as u32));
            }
            assert(children =~= bar_children(focused, occupied));
        },
        _ => {},
    }
}

} // verus!
