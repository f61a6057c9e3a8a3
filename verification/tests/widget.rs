use tagbar::widget::{border, background, Damage, Input, Orientation, Widget};

fn press(pressed: bool) -> Input {
    Input::MouseClick { time: 0, button: 272, pressed }
}

#[test]
fn rectangle_reports_its_size() {
    let r = Widget::rectangle(30, 40, 1);
    assert_eq!(r.get_width(), 30);
    assert_eq!(r.get_height(), 40);
    let s = Widget::square(25, 2);
    assert_eq!(s.get_width(), 25);
    assert_eq!(s.get_height(), 25);
}

#[test]
fn horizontal_list_size_is_sum_plus_margins() {
    let mut list = Widget::list(Orientation::Horizontal);
    list.set_margin(10);
    list.set_content(3);
    list.add(Widget::rectangle(60, 20, 1)).unwrap();
    list.add(Widget::rectangle(30, 50, 2)).unwrap();
    // width: 10 + 60 + 10 + 30 + 10; height: max(20, 50) + 2 * 10
    assert_eq!(list.get_width(), 120);
    assert_eq!(list.get_height(), 70);
    // adding one more child immediately moves the reported size: no cache
    list.add(Widget::square(5, 1)).unwrap();
    assert_eq!(list.get_width(), 135);
    assert_eq!(list.get_height(), 70);
}

#[test]
fn vertical_list_size_is_sum_plus_margins() {
    let mut list = Widget::list(Orientation::Vertical);
    list.set_margin(4);
    list.add(Widget::rectangle(60, 20, 1)).unwrap();
    list.add(Widget::rectangle(30, 50, 2)).unwrap();
    assert_eq!(list.get_width(), 68);
    assert_eq!(list.get_height(), 82);
}

#[test]
fn empty_list_is_just_margins() {
    let mut list = Widget::list(Orientation::Horizontal);
    list.set_margin(7);
    assert_eq!(list.get_width(), 7);
    assert_eq!(list.get_height(), 14);
}

#[test]
fn frames_add_twice_their_thickness() {
    let b = border(Widget::square(20, 1), 3, 2);
    assert_eq!(b.get_width(), 26);
    assert_eq!(b.get_height(), 26);
    let g = background(Widget::square(20, 1), 10, 2);
    assert_eq!(g.get_width(), 40);
    assert_eq!(g.get_height(), 40);
}

#[test]
fn node_keeps_its_base_size_and_refuses_oversize_layers() {
    let mut node = Widget::node(Widget::square(60, 1));
    assert_eq!(node.get_width(), 60);
    assert_eq!(node.get_height(), 60);
    assert!(node.center(Widget::square(24, 2)).is_ok());
    assert_eq!(node.get_width(), 60);
    assert!(node.center(Widget::square(61, 3)).is_err());
}

#[test]
fn rendering_a_rectangle_is_its_color() {
    let s = Widget::rectangle(3, 2, 0xff112233).to_surface();
    for y in 0..2 {
        for x in 0..3 {
            assert_eq!(s.get_pixel(x, y), 0xff112233);
        }
    }
}

#[test]
fn rendering_a_border_frames_the_child() {
    let s = border(Widget::square(2, 9), 1, 5).to_surface();
    assert_eq!(s.get_width(), 4);
    assert_eq!(s.get_pixel(0, 0), 5);
    assert_eq!(s.get_pixel(3, 3), 5);
    assert_eq!(s.get_pixel(1, 1), 9);
    assert_eq!(s.get_pixel(2, 2), 9);
    assert_eq!(s.get_pixel(0, 2), 5);
}

#[test]
fn rendering_a_node_centers_its_layers() {
    let mut node = Widget::node(Widget::square(6, 1));
    node.center(Widget::square(2, 8)).unwrap();
    let s = node.to_surface();
    assert_eq!(s.get_pixel(0, 0), 1);
    assert_eq!(s.get_pixel(2, 2), 8);
    assert_eq!(s.get_pixel(3, 3), 8);
    assert_eq!(s.get_pixel(4, 4), 1);
}

#[test]
fn rendering_a_list_places_children_along_the_axis() {
    let mut list = Widget::list(Orientation::Horizontal);
    list.set_margin(2);
    list.set_content(1);
    list.add(Widget::square(3, 7)).unwrap();
    list.add(Widget::square(3, 8)).unwrap();
    let s = list.to_surface();
    assert_eq!(s.get_width(), 12);
    assert_eq!(s.get_height(), 7);
    assert_eq!(s.get_pixel(0, 0), 1); // margin
    assert_eq!(s.get_pixel(3, 3), 7); // first child at (2, 2)
    assert_eq!(s.get_pixel(8, 3), 8); // second child at (7, 2)
    assert_eq!(s.get_pixel(11, 6), 1); // margin
}

#[test]
fn button_press_then_release_fires_once_on_release() {
    let mut btn = Widget::button(Widget::square(20, 0xaa), 0xbb, 0b100);

    let (d1, a1) = btn.contains(0, 0, 5, 5, press(true));
    assert!(a1.is_none());
    match d1 {
        Damage::Area { surface, x, y } => {
            assert_eq!((x, y), (0, 0));
            assert_eq!(surface.get_width(), 20);
            assert_eq!(surface.get_pixel(5, 5), 0xbb); // pressed visual
        },
        _ => panic!("press must answer an area patch"),
    }

    let (d2, a2) = btn.contains(0, 0, 5, 5, press(false));
    assert_eq!(a2, Some(0b100)); // the action fires exactly here
    match d2 {
        Damage::Area { surface, x, y } => {
            assert_eq!((x, y), (0, 0));
            assert_eq!(surface.get_pixel(5, 5), 0xaa); // default visual restored
        },
        _ => panic!("release must answer an area patch"),
    }

    // a release that no press preceded fires nothing
    let (_, a3) = btn.contains(0, 0, 5, 5, press(false));
    assert!(a3.is_none());
}

#[test]
fn button_ignores_misses_and_hovers() {
    let mut btn = Widget::button(Widget::square(20, 0xaa), 0xbb, 1);
    let (d1, a1) = btn.contains(0, 0, 25, 5, press(true));
    assert!(matches!(d1, Damage::Nothing));
    assert!(a1.is_none());
    let (d2, a2) = btn.contains(0, 0, 5, 5, Input::Hover);
    assert!(matches!(d2, Damage::Nothing));
    assert!(a2.is_none());
}

#[test]
fn list_dispatches_input_to_the_hit_child() {
    let mut list = Widget::list(Orientation::Horizontal);
    list.set_margin(10);
    list.add(Widget::square(20, 1)).unwrap();
    list.add(Widget::button(Widget::square(20, 0xaa), 0xbb, 9)).unwrap();
    // second child occupies x in [40, 60), y in [10, 30)
    let (d, _) = list.contains(0, 0, 45, 15, press(true));
    match d {
        Damage::Area { surface, x, y } => {
            assert_eq!((x, y), (40, 10));
            assert_eq!(surface.get_pixel(0, 0), 0xbb);
        },
        _ => panic!("the click must reach the button"),
    }
    // a click on the first child (a plain rectangle) does nothing
    let (d2, _) = list.contains(0, 0, 15, 15, press(true));
    assert!(matches!(d2, Damage::Nothing));
}

#[test]
fn list_refuses_a_child_that_overflows_its_size() {
    let mut list = Widget::list(Orientation::Horizontal);
    list.add(Widget::rectangle(u32::MAX - 5, 1, 1)).unwrap();
    assert_eq!(list.get_width(), u32::MAX - 5);
    assert!(list.add(Widget::rectangle(10, 1, 2)).is_err());
    // the refused child left the list exactly as it was
    assert_eq!(list.get_width(), u32::MAX - 5);
}
