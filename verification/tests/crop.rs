use algebra::crop::{region_of, Extent, Picture, Region};

fn drawn(rows: &[&str]) -> Picture {
    let width = rows.first().map_or(0, |row| row.len()) as u32;
    let ink = rows.iter().flat_map(|row| row.chars().map(|c| c == '#')).collect();
    Picture::new(width, rows.len() as u32, ink).unwrap()
}

fn blank(width: u32, height: u32) -> Picture {
    Picture::new(width, height, vec![false; (width * height) as usize]).unwrap()
}

#[test]
fn ink_extent_spans_the_first_and_last_rows_and_columns_with_ink() {
    let picture = drawn(&[
        "......",
        "...#..",
        ".#....",
        "....#.",
        "......",
    ]);
    assert_eq!(
        picture.ink_extent(),
        Extent { top: 1, bottom: 3, left: 1, right: 4 }
    );
}

#[test]
fn ink_extent_of_one_pixel_is_that_pixel() {
    let picture = drawn(&["....", "..#.", "...."]);
    assert_eq!(
        picture.ink_extent(),
        Extent { top: 1, bottom: 1, left: 2, right: 2 }
    );
    let picture = drawn(&["#"]);
    assert_eq!(
        picture.ink_extent(),
        Extent { top: 0, bottom: 0, left: 0, right: 0 }
    );
}

#[test]
fn ink_extent_of_a_full_picture_is_the_picture() {
    let picture = drawn(&["###", "###"]);
    assert_eq!(
        picture.ink_extent(),
        Extent { top: 0, bottom: 1, left: 0, right: 2 }
    );
}

#[test]
fn ink_extent_without_ink_is_inside_out() {
    let picture = drawn(&["....", "....", "...."]);
    assert_eq!(
        picture.ink_extent(),
        Extent { top: 3, bottom: 0, left: 4, right: 0 }
    );
    assert_eq!(blank(0, 0).ink_extent(), Extent { top: 0, bottom: 0, left: 0, right: 0 });
    assert_eq!(blank(7, 0).ink_extent(), Extent { top: 0, bottom: 0, left: 7, right: 0 });
}

#[test]
fn region_of_widens_by_the_margin() {
    let extent = Extent { top: 20, bottom: 30, left: 40, right: 60 };
    assert_eq!(
        region_of(extent, 100, 100, 10),
        Some(Region { x: 30, y: 10, width: 41, height: 31 })
    );
    assert_eq!(
        region_of(extent, 100, 100, 0),
        Some(Region { x: 40, y: 20, width: 21, height: 11 })
    );
}

#[test]
fn region_of_stops_at_the_edges_of_the_picture() {
    let extent = Extent { top: 3, bottom: 95, left: 5, right: 98 };
    assert_eq!(
        region_of(extent, 100, 100, 10),
        Some(Region { x: 0, y: 0, width: 100, height: 100 })
    );
    let extent = Extent { top: 0, bottom: u32::MAX - 1, left: 0, right: u32::MAX - 1 };
    assert_eq!(
        region_of(extent, u32::MAX, u32::MAX, u32::MAX),
        Some(Region { x: 0, y: 0, width: u32::MAX, height: u32::MAX })
    );
}

#[test]
fn region_of_needs_more_than_one_row_and_column() {
    let one_row = Extent { top: 5, bottom: 5, left: 2, right: 8 };
    assert_eq!(region_of(one_row, 10, 10, 0), None);
    assert_eq!(region_of(one_row, 10, 10, 1), Some(Region { x: 1, y: 4, width: 9, height: 3 }));
    let one_column = Extent { top: 2, bottom: 8, left: 5, right: 5 };
    assert_eq!(region_of(one_column, 10, 10, 0), None);
    let one_pixel_picture = Extent { top: 0, bottom: 0, left: 0, right: 0 };
    assert_eq!(region_of(one_pixel_picture, 1, 1, 10), None);
}

#[test]
fn content_region_of_a_blank_picture() {
    assert_eq!(blank(100, 100).content_region(10), None);
    assert_eq!(
        blank(15, 15).content_region(10),
        Some(Region { x: 5, y: 5, width: 6, height: 6 })
    );
}

#[test]
fn content_region_is_the_ink_with_its_margin() {
    let picture = drawn(&[
        "..........",
        "..........",
        "....##....",
        "....#.....",
        "......#...",
        "..........",
        "..........",
    ]);
    assert_eq!(
        picture.content_region(1),
        Some(Region { x: 3, y: 1, width: 5, height: 5 })
    );
    assert_eq!(
        picture.content_region(10),
        Some(Region { x: 0, y: 0, width: 10, height: 7 })
    );
}

#[test]
fn picture_needs_one_flag_for_each_pixel() {
    assert!(Picture::new(3, 2, vec![false; 6]).is_some());
    assert!(Picture::new(3, 2, vec![false; 5]).is_none());
    assert!(Picture::new(3, 2, vec![false; 7]).is_none());
    assert!(Picture::new(0, 5, vec![]).is_some());
    assert!(Picture::new(0, 5, vec![true]).is_none());
    assert!(Picture::new(u32::MAX, u32::MAX, vec![true; 1]).is_none());
    let picture = Picture::new(2, 1, vec![true, false]).unwrap();
    assert_eq!((picture.width, picture.height, picture.ink), (2, 1, vec![true, false]));
}
