use tagbar::app::{App, Event, Rect, NUM_TAGS};
use tagbar::bar::{create_widget, BG1, GRN, YEL};
use tagbar::buffer::Pool;
use tagbar::surface::Surface;
use tagbar::widget::{Damage, Input};

fn fresh_app(limit: usize) -> App {
    let views: Vec<u32> = Vec::new();
    App::new(create_widget(0, NUM_TAGS, &views), Pool::new(limit))
}

fn click(pressed: bool) -> Input {
    Input::MouseClick { time: 0, button: 272, pressed }
}

#[test]
fn configure_before_any_tag_state_renders_a_default_bar() {
    let mut app = fresh_app(1 << 20);
    let r = app.handle_event(Event::Configure { serial: 7, width: 280, height: 40 });
    assert_eq!(r.ack, Some(7));
    assert!(r.attach && r.commit);
    assert_eq!(r.damage, Some(Rect { x: 0, y: 0, width: 280, height: 40 }));
    assert!(app.configured);
    assert_eq!(app.buffer.width, 280);
    assert_eq!(app.buffer.height, 40);
    // the bar fill in the margin, the icon ground inside the first icon
    assert_eq!(app.buffer.get_pixel(5, 5), BG1);
    assert_eq!(app.buffer.get_pixel(40, 39), tagbar::bar::BG0);
}

#[test]
fn tag_state_before_configure_stays_buffered() {
    let mut app = fresh_app(1 << 20);
    let r1 = app.handle_event(Event::FocusedTags { tags: 0b1 });
    assert!(!r1.attach && !r1.commit && r1.damage.is_none());
    assert_eq!(app.focused, 0b1);
    let r2 = app.handle_event(Event::ViewTags { tags: vec![2, 0, 0, 0] });
    assert!(!r2.attach);
    assert_eq!(app.tag_list, vec![2]);
    // the buffered state shows up on the first configure
    let r3 = app.handle_event(Event::Configure { serial: 1, width: 600, height: 100 });
    assert!(r3.attach && r3.commit);
    // icon 0 focused: its highlight center (40, 40) is yellow
    assert_eq!(app.buffer.get_pixel(40, 40), YEL);
    // icon 1 occupied: green highlight
    assert_eq!(app.buffer.get_pixel(110, 40), GRN);
}

#[test]
fn focused_push_after_configure_redraws() {
    let mut app = fresh_app(1 << 20);
    app.handle_event(Event::Configure { serial: 1, width: 600, height: 100 });
    assert_eq!(app.buffer.get_pixel(40, 40), tagbar::bar::BG0);
    let r = app.handle_event(Event::FocusedTags { tags: 0b1 });
    assert!(r.attach && r.commit);
    assert_eq!(r.damage, Some(Rect { x: 0, y: 0, width: 600, height: 100 }));
    assert_eq!(app.buffer.get_pixel(40, 40), YEL);
}

#[test]
fn allocation_failure_keeps_the_last_frame() {
    // the pool cannot hold a 600 by 100 frame: the configure is acknowledged
    // but no frame is produced, and the old (empty) buffer stays
    let mut app = fresh_app(100);
    let r = app.handle_event(Event::Configure { serial: 3, width: 600, height: 100 });
    assert_eq!(r.ack, Some(3));
    assert!(!r.attach && !r.commit && r.damage.is_none());
    assert_eq!(app.buffer.width, 0);
}

#[test]
fn click_on_a_focused_tag_presses_and_releases_its_button() {
    let mut app = fresh_app(1 << 20);
    app.handle_event(Event::Configure { serial: 1, width: 600, height: 100 });
    app.handle_event(Event::FocusedTags { tags: 0b1 });
    // icon 0's button occupies x, y in [30, 50)
    let r1 = app.handle_event(Event::Pointer { x: 35, y: 35, input: click(true) });
    assert!(r1.attach && r1.commit);
    assert_eq!(r1.damage, Some(Rect { x: 30, y: 30, width: 20, height: 20 }));
    assert!(r1.spawn.is_none());
    assert_eq!(app.buffer.get_pixel(35, 35), GRN); // pressed flash
    let r2 = app.handle_event(Event::Pointer { x: 35, y: 35, input: click(false) });
    assert_eq!(r2.spawn, Some(0b1)); // the action fires once, on release
    assert_eq!(app.buffer.get_pixel(35, 35), YEL); // default restored
}

#[test]
fn click_outside_every_button_changes_nothing() {
    let mut app = fresh_app(1 << 20);
    app.handle_event(Event::Configure { serial: 1, width: 600, height: 100 });
    let before = app.buffer.data.clone();
    let r = app.handle_event(Event::Pointer { x: 5, y: 5, input: click(true) });
    assert!(!r.attach && !r.commit && r.damage.is_none() && r.spawn.is_none());
    assert_eq!(app.buffer.data, before);
}

#[test]
fn a_fresh_hide_clears_and_a_stale_hide_is_ignored() {
    let mut app = fresh_app(1 << 20);
    app.handle_event(Event::Configure { serial: 1, width: 600, height: 100 });
    let stale = app.generation;
    app.handle_event(Event::FocusedTags { tags: 0b1 }); // bumps the generation
    let r1 = app.handle_event(Event::Hide { generation: stale });
    assert!(!r1.attach && !r1.commit);
    assert!(app.visible);
    let r2 = app.handle_event(Event::Hide { generation: app.generation });
    assert!(r2.attach && r2.commit);
    assert!(!app.visible);
    assert!(app.buffer.data.iter().all(|&b| b == 0));
    // showing again redraws the current state
    let r3 = app.handle_event(Event::Show);
    assert!(r3.attach && r3.commit);
    assert_eq!(app.buffer.get_pixel(40, 40), YEL);
}

#[test]
fn closed_is_terminal() {
    let mut app = fresh_app(1 << 20);
    app.handle_event(Event::Configure { serial: 1, width: 600, height: 100 });
    let r = app.handle_event(Event::Closed);
    assert!(r.release);
    assert!(app.closed);
    let r2 = app.handle_event(Event::FocusedTags { tags: 0b1 });
    assert!(!r2.attach && !r2.commit && !r2.release);
    assert_eq!(app.focused, 0); // nothing moves after the close
}

#[test]
fn every_frame_is_written_from_scratch() {
    let mut app = fresh_app(1 << 20);
    app.handle_event(Event::Configure { serial: 1, width: 600, height: 100 });
    let first = app.buffer.data.clone();
    app.handle_event(Event::FocusedTags { tags: 0b1 });
    let second = app.buffer.data.clone();
    assert_ne!(first, second);
    // going back to the old state reproduces the old frame exactly:
    // frames are functions of the state, never patched in place
    app.handle_event(Event::FocusedTags { tags: 0 });
    assert_eq!(app.buffer.data, first);
}

#[test]
fn damage_all_replaces_the_whole_picture() {
    let mut app = fresh_app(1 << 20);
    app.handle_event(Event::Configure { serial: 1, width: 8, height: 8 });
    let replacement = Surface::solid(8, 8, 0x11223344);
    let r = app.damage(Damage::All { surface: replacement });
    assert!(r.attach && r.commit);
    assert_eq!(r.damage, Some(Rect { x: 0, y: 0, width: 8, height: 8 }));
    assert_eq!(app.buffer.get_pixel(0, 0), 0x11223344);
    assert_eq!(app.buffer.get_pixel(7, 7), 0x11223344);
}

#[test]
fn damage_destroy_clears_to_transparent() {
    let mut app = fresh_app(1 << 20);
    app.handle_event(Event::Configure { serial: 1, width: 8, height: 8 });
    let r = app.damage(Damage::Destroy);
    assert!(r.attach && r.commit);
    assert!(app.buffer.data.iter().all(|&b| b == 0));
}

#[test]
fn damage_nothing_asks_for_nothing() {
    let mut app = fresh_app(1 << 20);
    app.handle_event(Event::Configure { serial: 1, width: 8, height: 8 });
    let before = app.buffer.data.clone();
    let r = app.damage(Damage::Nothing);
    assert!(!r.attach && !r.commit && r.damage.is_none());
    assert_eq!(app.buffer.data, before);
}
