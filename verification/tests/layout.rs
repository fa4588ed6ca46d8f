use water_sort::layout::{
    banner_color, command_at, get_color, get_rect, portion_rect, pouring_rect, selection_rect,
    Rect, Rgb, PORTION_HEIGHT, PORTION_WIDTH, SCREEN_HEIGHT, SCREEN_WIDTH, TUBE_PER_ROW,
};
use water_sort::model::Command;

#[test]
fn layout_constants_have_their_values() {
    assert_eq!(SCREEN_WIDTH, 400);
    assert_eq!(SCREEN_HEIGHT, 460);
    assert_eq!(TUBE_PER_ROW, 5);
    assert_eq!(PORTION_WIDTH, 40);
    assert_eq!(PORTION_HEIGHT, 36);
}

#[test]
fn tubes_stand_in_two_rows_of_five() {
    assert_eq!(get_rect(0), Rect { x: 40, y: 40, width: 42, height: 159 });
    assert_eq!(get_rect(1), Rect { x: 110, y: 40, width: 42, height: 159 });
    assert_eq!(get_rect(4), Rect { x: 320, y: 40, width: 42, height: 159 });
    assert_eq!(get_rect(5), Rect { x: 40, y: 250, width: 42, height: 159 });
    assert_eq!(get_rect(9), Rect { x: 320, y: 250, width: 42, height: 159 });
}

#[test]
fn rect_holds_left_and_top_edges_only() {
    let rect = Rect { x: 1, y: 2, width: 3, height: 4 };
    assert!(rect.contains_point(1, 2));
    assert!(!rect.contains_point(0, 1));
    assert!(rect.contains_point(3, 5));
    assert!(!rect.contains_point(4, 6));
    assert!(!rect.contains_point(4, 5));
    assert!(!rect.contains_point(3, 6));
    assert!(!rect.contains_point(0, 2));
    assert!(!rect.contains_point(1, 1));
}

#[test]
fn rect_near_the_limits_does_not_wrap() {
    let rect = Rect { x: i32::MAX - 1, y: 0, width: u32::MAX, height: 1 };
    assert!(rect.contains_point(i32::MAX, 0));
    assert!(!rect.contains_point(i32::MIN, 0));
    assert!(!rect.contains_point(i32::MAX, 1));
}

#[test]
fn click_on_a_tube_selects_it() {
    assert_eq!(command_at(40, 40), Command::Select(0));
    assert_eq!(command_at(81, 198), Command::Select(0));
    assert_eq!(command_at(110, 100), Command::Select(1));
    assert_eq!(command_at(200, 100), Command::Select(2));
    assert_eq!(command_at(270, 100), Command::Select(3));
    assert_eq!(command_at(361, 40), Command::Select(4));
    assert_eq!(command_at(40, 250), Command::Select(5));
    assert_eq!(command_at(130, 300), Command::Select(6));
    assert_eq!(command_at(200, 300), Command::Select(7));
    assert_eq!(command_at(270, 300), Command::Select(8));
    assert_eq!(command_at(361, 408), Command::Select(9));
}

#[test]
fn click_beside_the_tubes_selects_nothing() {
    assert_eq!(command_at(0, 0), Command::Idle);
    assert_eq!(command_at(39, 40), Command::Idle);
    assert_eq!(command_at(40, 39), Command::Idle);
    assert_eq!(command_at(82, 40), Command::Idle);
    assert_eq!(command_at(40, 199), Command::Idle);
    assert_eq!(command_at(100, 100), Command::Idle);
    assert_eq!(command_at(200, 220), Command::Idle);
    assert_eq!(command_at(362, 408), Command::Idle);
    assert_eq!(command_at(361, 409), Command::Idle);
    assert_eq!(command_at(-1, -1), Command::Idle);
    assert_eq!(command_at(i32::MAX, i32::MAX), Command::Idle);
    assert_eq!(command_at(i32::MIN, i32::MIN), Command::Idle);
}

#[test]
fn every_point_of_a_tube_selects_that_tube() {
    for index in 0..10 {
        let rect = get_rect(index);
        for dx in 0..rect.width as i32 {
            for dy in 0..rect.height as i32 {
                assert_eq!(command_at(rect.x + dx, rect.y + dy), Command::Select(index));
            }
        }
    }
}

#[test]
fn portions_stack_from_the_bottom() {
    assert_eq!(portion_rect(0, 0), Rect { x: 41, y: 162, width: 40, height: 36 });
    assert_eq!(portion_rect(0, 1), Rect { x: 41, y: 126, width: 40, height: 36 });
    assert_eq!(portion_rect(0, 3), Rect { x: 41, y: 54, width: 40, height: 36 });
    assert_eq!(portion_rect(9, 0), Rect { x: 321, y: 372, width: 40, height: 36 });
    assert_eq!(portion_rect(9, 3), Rect { x: 321, y: 264, width: 40, height: 36 });
}

#[test]
fn selection_frame_lies_one_pixel_outside() {
    assert_eq!(selection_rect(0), Rect { x: 39, y: 39, width: 44, height: 161 });
    assert_eq!(selection_rect(7), Rect { x: 179, y: 249, width: 44, height: 161 });
}

#[test]
fn pouring_rect_covers_the_portions_that_left() {
    assert_eq!(pouring_rect(0, 2, 2), Rect { x: 41, y: 54, width: 40, height: 72 });
    assert_eq!(pouring_rect(0, 0, 1), Rect { x: 41, y: 162, width: 40, height: 36 });
    assert_eq!(pouring_rect(0, 0, 4), Rect { x: 41, y: 54, width: 40, height: 144 });
    assert_eq!(pouring_rect(5, 3, 1), Rect { x: 41, y: 264, width: 40, height: 36 });
    assert_eq!(pouring_rect(5, 4, 0), Rect { x: 41, y: 264, width: 40, height: 0 });
}

#[test]
fn every_color_has_its_paint() {
    assert_eq!(get_color(1), Rgb { r: 192, g: 0, b: 0 });
    assert_eq!(get_color(2), Rgb { r: 0, g: 192, b: 0 });
    assert_eq!(get_color(3), Rgb { r: 0, g: 0, b: 192 });
    assert_eq!(get_color(4), Rgb { r: 192, g: 192, b: 0 });
    assert_eq!(get_color(5), Rgb { r: 0, g: 192, b: 192 });
    assert_eq!(get_color(6), Rgb { r: 192, g: 0, b: 192 });
    assert_eq!(get_color(7), Rgb { r: 192, g: 192, b: 192 });
    assert_eq!(get_color(8), Rgb { r: 255, g: 96, b: 0 });
}

#[test]
fn banner_cycles_through_six_colors() {
    let red = Rgb { r: 255, g: 0, b: 0 };
    let green = Rgb { r: 0, g: 255, b: 0 };
    assert_eq!(banner_color(0), red);
    assert_eq!(banner_color(2), red);
    assert_eq!(banner_color(3), green);
    assert_eq!(banner_color(6), Rgb { r: 0, g: 0, b: 255 });
    assert_eq!(banner_color(9), Rgb { r: 255, g: 255, b: 0 });
    assert_eq!(banner_color(12), Rgb { r: 0, g: 255, b: 255 });
    assert_eq!(banner_color(15), Rgb { r: 255, g: 0, b: 255 });
    assert_eq!(banner_color(17), Rgb { r: 255, g: 0, b: 255 });
    assert_eq!(banner_color(18), red);
    assert_eq!(banner_color(i32::MAX), red);
}
