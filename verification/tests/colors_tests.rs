use pixel_slicer::colors::{count_colors, find_top_x_colors, sort_colors_desc};
use pixel_slicer::pixels::{grid_from_raw, Rgba};
use pixel_slicer::text::rgba_to_hex;

fn red() -> Rgba {
    Rgba { red: 255, green: 0, blue: 0, alpha: 255 }
}

fn green() -> Rgba {
    Rgba { red: 0, green: 255, blue: 0, alpha: 255 }
}

fn blue() -> Rgba {
    Rgba { red: 0, green: 0, blue: 255, alpha: 255 }
}

fn two_by_two(colors: [Rgba; 4]) -> pixel_slicer::pixels::PixelGrid {
    let mut raw = Vec::new();
    for c in colors {
        raw.extend_from_slice(&[c.red, c.green, c.blue, c.alpha]);
    }
    grid_from_raw(2, 2, &raw).unwrap()
}

#[test]
fn top_three_of_red_red_blue_green() {
    let grid = two_by_two([red(), red(), blue(), green()]);
    let top = find_top_x_colors(&grid, 3);
    assert_eq!(top.len(), 3);
    // Red leads with count 2; blue and green follow with count 1 in
    // unspecified relative order.
    assert_eq!(top[0].color, red());
    assert_eq!(top[0].count, 2);
    assert_eq!(top[1].count, 1);
    assert_eq!(top[2].count, 1);
    let rest = [top[1].color, top[2].color];
    assert!(rest.contains(&blue()));
    assert!(rest.contains(&green()));
}

#[test]
fn report_shorter_than_requested_when_fewer_colors_exist() {
    let grid = two_by_two([red(), red(), red(), red()]);
    let top = find_top_x_colors(&grid, 5);
    assert_eq!(top.len(), 1);
    assert_eq!(top[0].color, red());
    assert_eq!(top[0].count, 4);
}

#[test]
fn report_truncates_to_the_request() {
    let grid = two_by_two([red(), red(), blue(), green()]);
    let top = find_top_x_colors(&grid, 1);
    assert_eq!(top.len(), 1);
    assert_eq!(top[0].color, red());
    let none = find_top_x_colors(&grid, 0);
    assert!(none.is_empty());
}

#[test]
fn counts_are_exact_per_color() {
    let grid = two_by_two([green(), blue(), green(), green()]);
    let table = count_colors(&grid.pixels);
    assert_eq!(table.len(), 2);
    for row in table.iter() {
        if row.color == green() {
            assert_eq!(row.count, 3);
        } else {
            assert_eq!(row.color, blue());
            assert_eq!(row.count, 1);
        }
    }
}

#[test]
fn colors_differing_only_in_alpha_are_distinct() {
    let ghost_red = Rgba { red: 255, green: 0, blue: 0, alpha: 0 };
    let grid = two_by_two([red(), ghost_red, red(), ghost_red]);
    let table = count_colors(&grid.pixels);
    assert_eq!(table.len(), 2);
    for row in table.iter() {
        assert_eq!(row.count, 2);
    }
    // Both render to the same hex digits: alpha is ignored in the report.
    assert_eq!(rgba_to_hex(red()), rgba_to_hex(ghost_red));
}

#[test]
fn sorting_orders_by_descending_count() {
    let grid = two_by_two([blue(), green(), green(), blue()]);
    let mut table = count_colors(&grid.pixels);
    table.push(pixel_slicer::colors::ColorCount { color: red(), count: 9 });
    let sorted = sort_colors_desc(table);
    assert_eq!(sorted.len(), 3);
    assert_eq!(sorted[0].color, red());
    assert_eq!(sorted[0].count, 9);
    assert_eq!(sorted[1].count, 2);
    assert_eq!(sorted[2].count, 2);
}

#[test]
fn report_renders_like_the_console_output() {
    let grid = two_by_two([red(), red(), blue(), green()]);
    let top = find_top_x_colors(&grid, 3);
    let first = format!("Color: {}, Count: {}", rgba_to_hex(top[0].color), top[0].count);
    assert_eq!(first, "Color: #FF0000, Count: 2");
}
