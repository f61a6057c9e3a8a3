use tagbar::bar::{create_widget, TagButton, TagCommand, BG0, BG1, BG2, GRN, RED, YEL};

/// The center of tag icon `n`'s highlight in the rendered bar.
fn icon_center(n: u32) -> (u32, u32) {
    (10 + n * 70 + 30, 40)
}

#[test]
fn bar_reports_one_icon_per_tag() {
    let views: Vec<u32> = Vec::new();
    let bar = create_widget(0, 7, &views);
    assert_eq!(bar.get_width(), 7 * 70 + 10);
    assert_eq!(bar.get_height(), 80);
}

#[test]
fn focused_tag_zero_alone_is_highlighted() {
    let views: Vec<u32> = Vec::new();
    let bar = create_widget(0b0000001, 7, &views);
    let s = bar.to_surface();
    let (x0, y0) = icon_center(0);
    assert_eq!(s.get_pixel(x0, y0), YEL);
    for n in 1..7 {
        let (x, y) = icon_center(n);
        assert_eq!(s.get_pixel(x, y), BG0);
    }
}

#[test]
fn occupied_and_focused_icons_show_their_colors() {
    let views: Vec<u32> = vec![0b0000001, 0b0000010];
    let bar = create_widget(0b0000010, 7, &views);
    let s = bar.to_surface();
    let (x0, y0) = icon_center(0);
    assert_eq!(s.get_pixel(x0, y0), GRN); // occupied
    let (x1, y1) = icon_center(1);
    assert_eq!(s.get_pixel(x1, y1), YEL); // focused
    for n in 2..7 {
        let (x, y) = icon_center(n);
        assert_eq!(s.get_pixel(x, y), BG0); // empty
    }
}

#[test]
fn multi_bit_focus_highlights_every_set_tag() {
    let views: Vec<u32> = Vec::new();
    let bar = create_widget(0b0000101, 7, &views);
    let s = bar.to_surface();
    assert_eq!(s.get_pixel(icon_center(0).0, 40), YEL);
    assert_eq!(s.get_pixel(icon_center(1).0, 40), BG0);
    assert_eq!(s.get_pixel(icon_center(2).0, 40), YEL);
}

#[test]
fn focused_icon_shows_its_slot() {
    let views: Vec<u32> = Vec::new();
    let bar = create_widget(1, 7, &views);
    let s = bar.to_surface();
    // the 24-wide slot sits under the 20-wide highlight: one ring pixel
    assert_eq!(s.get_pixel(10 + 19, 40), BG2);
    // outside the slot, the icon ground
    assert_eq!(s.get_pixel(10 + 5, 40), BG0);
    // between the icons, the bar fill
    assert_eq!(s.get_pixel(5, 40), BG1);
}

#[test]
fn bar_margins_show_the_bar_fill() {
    let views: Vec<u32> = Vec::new();
    let bar = create_widget(0, 7, &views);
    let s = bar.to_surface();
    assert_eq!(s.get_pixel(0, 0), BG1);
    assert_eq!(s.get_pixel(s.get_width() - 1, s.get_height() - 1), BG1);
}

fn tb_color(tb: &TagButton) -> u32 {
    tb.to_surface().get_pixel(0, 0)
}

#[test]
fn tag_button_starts_in_the_default_color() {
    let tb = TagButton::new(0b10, 40);
    assert_eq!(tb.get_width(), 40);
    assert_eq!(tb.get_height(), 40);
    assert_eq!(tb_color(&tb), BG1);
}

#[test]
fn tag_button_focused_command_highlights_matching_tags() {
    let mut tb = TagButton::new(0b10, 40);
    tb.send_command(&TagCommand::Focused { tags: 0b100 });
    assert_eq!(tb_color(&tb), BG1); // no shared bit: untouched
    tb.send_command(&TagCommand::Focused { tags: 0b110 });
    assert_eq!(tb_color(&tb), YEL);
}

#[test]
fn tag_button_urgent_command_uses_the_urgent_color() {
    let mut tb = TagButton::new(0b1, 40);
    tb.send_command(&TagCommand::Urgent { tags: 0b1 });
    assert_eq!(tb_color(&tb), RED);
}

#[test]
fn tag_button_occupied_command_sets_and_resets() {
    let mut tb = TagButton::new(0b1, 40);
    tb.send_command(&TagCommand::Occupied { tags: vec![0b10, 0b11] });
    assert_eq!(tb_color(&tb), BG2);
    tb.send_command(&TagCommand::Occupied { tags: vec![0b10] });
    assert_eq!(tb_color(&tb), BG1); // no view on the tag: back to default
}
