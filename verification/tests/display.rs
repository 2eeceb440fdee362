use h7_display::{FrameBuffer, H7Display, Pixel, Point, Rectangle, Size};

fn display<const W: usize, const H: usize>() -> H7Display<char, W, H> {
    let mut d = H7Display::new(FrameBuffer::new(), FrameBuffer::new());
    d.clear('.');
    d.swap_buffers();
    d
}

fn rows<const W: usize, const H: usize>(fb: &FrameBuffer<char, W, H>) -> Vec<String> {
    if W == 0 {
        return vec![String::new(); H];
    }
    fb.as_slice().chunks(W).map(|row| row.iter().collect()).collect()
}

fn back<const W: usize, const H: usize>(d: &H7Display<char, W, H>) -> Vec<String> {
    rows(d.back_buffer())
}

fn front<const W: usize, const H: usize>(d: &H7Display<char, W, H>) -> Vec<String> {
    rows(d.front_buffer())
}

fn lettered() -> H7Display<char, 3, 4> {
    let mut d = display::<3, 4>();
    d.fill_contiguous(&rect(0, 0, 3, 4), &['a', 'b', 'c', 'd', 'e', 'f', 'g', 'h', 'i', 'j', 'k', 'l']);
    d
}

fn rect(x: i32, y: i32, width: u32, height: u32) -> Rectangle {
    Rectangle::new(Point::new(x, y), Size::new(width, height))
}

fn address<T>(value: &T) -> String {
    format!("{:p}", value)
}

#[test]
fn geometry_constructors_keep_their_arguments() {
    let r = rect(-3, 4, 5, 6);
    assert_eq!(r.top_left, Point { x: -3, y: 4 });
    assert_eq!(r.size, Size { width: 5, height: 6 });
    let p = Pixel::new(Point::new(1, 2), 'x');
    assert_eq!(p.point, Point::new(1, 2));
    assert_eq!(p.color, 'x');
}

#[test]
fn extent_is_that_of_the_type() {
    let d = display::<4, 3>();
    assert_eq!(d.width(), 4);
    assert_eq!(d.height(), 3);
    assert_eq!(d.front_buffer().len(), 12);
    assert_eq!(d.back_buffer().len(), 12);
}

#[test]
fn new_display_shows_the_first_store() {
    let mut shown: FrameBuffer<char, 2, 1> = FrameBuffer::new();
    shown.fill_range(0, 2, 'f');
    let mut drawn: FrameBuffer<char, 2, 1> = FrameBuffer::new();
    drawn.fill_range(0, 2, 'b');
    let d = H7Display::new(shown, drawn);
    assert_eq!(front(&d), ["ff"]);
    assert_eq!(back(&d), ["bb"]);
}

#[test]
fn drawing_leaves_the_front_store_alone() {
    let mut d = lettered();
    d.draw_pixel(1, 1, 'X');
    d.fill_solid(&rect(0, 0, 2, 2), 'Y');
    d.scroll(1, 'Z');
    d.clear('W');
    assert_eq!(front(&d), ["...", "...", "...", "..."]);
    assert_eq!(back(&d), ["WWW", "WWW", "WWW", "WWW"]);
}

#[test]
fn draw_pixel_writes_one_pixel() {
    let mut d = display::<4, 3>();
    d.draw_pixel(2, 1, 'X');
    assert_eq!(back(&d), ["....", "..X.", "...."]);
    d.draw_pixel(0, 0, 'A');
    d.draw_pixel(3, 2, 'Z');
    assert_eq!(back(&d), ["A...", "..X.", "...Z"]);
}

#[test]
fn draw_pixel_off_the_surface_is_dropped() {
    let mut d = display::<4, 6>();
    d.draw_pixel(4, 0, 'X');
    d.draw_pixel(-1, 5, 'X');
    d.draw_pixel(0, 6, 'X');
    d.draw_pixel(0, -1, 'X');
    d.draw_pixel(i32::MAX, i32::MAX, 'X');
    d.draw_pixel(i32::MIN, i32::MIN, 'X');
    d.draw_pixel(i32::MIN, 0, 'X');
    assert_eq!(back(&d), ["....", "....", "....", "....", "....", "...."]);
}

#[test]
fn draw_iter_lets_the_last_write_win() {
    let mut d = display::<3, 2>();
    let pixels = [
        Pixel::new(Point::new(0, 0), 'a'),
        Pixel::new(Point::new(1, 1), 'b'),
        Pixel::new(Point::new(7, 7), 'c'),
        Pixel::new(Point::new(0, 0), 'd'),
        Pixel::new(Point::new(-1, 0), 'e'),
        Pixel::new(Point::new(2, 0), 'f'),
    ];
    d.draw_iter(&pixels);
    assert_eq!(back(&d), ["d.f", ".b."]);
    d.draw_iter(&[]);
    assert_eq!(back(&d), ["d.f", ".b."]);
}

#[test]
fn fill_contiguous_scans_row_by_row() {
    let mut d = display::<4, 3>();
    d.fill_contiguous(&rect(1, 1, 2, 2), &['a', 'b', 'c', 'd']);
    assert_eq!(back(&d), ["....", ".ab.", ".cd."]);
}

#[test]
fn fill_contiguous_stops_with_the_last_colour() {
    let mut d = display::<4, 3>();
    d.fill_contiguous(&rect(0, 0, 3, 3), &['a', 'b', 'c', 'd', 'e']);
    assert_eq!(back(&d), ["abc.", "de..", "...."]);
    d.fill_contiguous(&rect(0, 0, 3, 3), &[]);
    assert_eq!(back(&d), ["abc.", "de..", "...."]);
}

#[test]
fn fill_contiguous_passes_over_colours_it_has_no_place_for() {
    let mut d = display::<4, 3>();
    d.fill_contiguous(&rect(2, 0, 2, 1), &['a', 'b', 'c', 'd', 'e']);
    assert_eq!(back(&d), ["..ab", "....", "...."]);
}

#[test]
fn fill_contiguous_spends_colours_on_places_off_the_surface() {
    let mut d = display::<4, 3>();
    d.fill_contiguous(&rect(-1, -1, 3, 3), &['a', 'b', 'c', 'd', 'e', 'f', 'g', 'h', 'i']);
    assert_eq!(back(&d), ["ef..", "hi..", "...."]);
    let mut d = display::<4, 3>();
    d.fill_contiguous(&rect(3, 1, 2, 3), &['a', 'b', 'c', 'd', 'e', 'f']);
    assert_eq!(back(&d), ["....", "...a", "...c"]);
}

#[test]
fn fill_contiguous_of_an_empty_area_changes_nothing() {
    let mut d = display::<4, 3>();
    d.fill_contiguous(&rect(1, 1, 0, 2), &['a', 'b']);
    d.fill_contiguous(&rect(1, 1, 2, 0), &['a', 'b']);
    d.fill_contiguous(&rect(9, 9, 2, 2), &['a', 'b', 'c', 'd']);
    assert_eq!(back(&d), ["....", "....", "...."]);
}

#[test]
fn fill_contiguous_takes_the_largest_area() {
    let mut d = display::<2, 2>();
    d.fill_contiguous(&rect(i32::MAX, i32::MAX, u32::MAX, u32::MAX), &['a', 'b', 'c']);
    assert_eq!(back(&d), ["..", ".."]);
    d.fill_contiguous(&rect(0, 0, u32::MAX, u32::MAX), &['a', 'b', 'c']);
    assert_eq!(back(&d), ["ab", ".."]);
    d.fill_contiguous(&rect(i32::MIN, 1, u32::MAX, 1), &['z']);
    assert_eq!(back(&d), ["ab", ".."]);
}

#[test]
fn fill_solid_fills_the_rectangle() {
    let mut d = display::<4, 3>();
    d.fill_solid(&rect(1, 0, 2, 2), 'B');
    assert_eq!(back(&d), [".BB.", ".BB.", "...."]);
    d.fill_solid(&rect(0, 0, 4, 3), 'C');
    assert_eq!(back(&d), ["CCCC", "CCCC", "CCCC"]);
}

#[test]
fn fill_solid_is_clamped_to_the_surface() {
    let mut d = display::<10, 10>();
    d.fill_solid(&rect(-5, -5, 8, 8), 'C');
    assert_eq!(
        back(&d),
        [
            "CCC.......",
            "CCC.......",
            "CCC.......",
            "..........",
            "..........",
            "..........",
            "..........",
            "..........",
            "..........",
            "..........",
        ]
    );
    let mut d = display::<4, 3>();
    d.fill_solid(&rect(2, 1, 50, 50), 'C');
    assert_eq!(back(&d), ["....", "..CC", "..CC"]);
    let mut d = display::<4, 3>();
    d.fill_solid(&rect(-7, 1, 8, 1), 'C');
    assert_eq!(back(&d), ["....", "C...", "...."]);
}

#[test]
fn fill_solid_off_the_surface_changes_nothing() {
    let mut d = lettered();
    d.fill_solid(&rect(3, 0, 5, 5), 'X');
    d.fill_solid(&rect(0, 4, 5, 5), 'X');
    d.fill_solid(&rect(-5, 0, 5, 5), 'X');
    d.fill_solid(&rect(0, -5, 5, 5), 'X');
    d.fill_solid(&rect(100, 100, 1, 1), 'X');
    d.fill_solid(&rect(i32::MIN, i32::MIN, 10, 10), 'X');
    d.fill_solid(&rect(i32::MAX, i32::MAX, u32::MAX, u32::MAX), 'X');
    assert_eq!(back(&d), ["abc", "def", "ghi", "jkl"]);
}

#[test]
fn fill_solid_of_an_empty_area_changes_nothing() {
    let mut d = lettered();
    d.fill_solid(&rect(1, 1, 0, 2), 'X');
    d.fill_solid(&rect(1, 1, 2, 0), 'X');
    d.fill_solid(&rect(0, 0, 0, 0), 'X');
    assert_eq!(back(&d), ["abc", "def", "ghi", "jkl"]);
}

#[test]
fn fill_solid_takes_the_largest_area() {
    let mut d = display::<3, 2>();
    d.fill_solid(&rect(i32::MIN, i32::MIN, u32::MAX, u32::MAX), 'X');
    assert_eq!(back(&d), ["XXX", "XXX"]);
    let mut d = display::<3, 2>();
    d.fill_solid(&rect(1, 1, u32::MAX, u32::MAX), 'X');
    assert_eq!(back(&d), ["...", ".XX"]);
}

#[test]
fn clear_fills_every_pixel() {
    let mut d = lettered();
    d.clear('A');
    assert_eq!(back(&d), ["AAA", "AAA", "AAA", "AAA"]);
    let mut empty: H7Display<char, 0, 3> = H7Display::new(FrameBuffer::new(), FrameBuffer::new());
    empty.clear('A');
    assert_eq!(empty.back_buffer().len(), 0);
}

#[test]
fn scroll_by_nothing_changes_nothing() {
    let mut d = lettered();
    d.scroll(0, 'X');
    assert_eq!(back(&d), ["abc", "def", "ghi", "jkl"]);
}

#[test]
fn negative_scroll_moves_rows_down() {
    let mut d = lettered();
    d.scroll(-1, 'X');
    assert_eq!(back(&d), ["XXX", "abc", "def", "ghi"]);
    d.scroll(-2, 'Y');
    assert_eq!(back(&d), ["YYY", "YYY", "XXX", "abc"]);
}

#[test]
fn positive_scroll_moves_rows_up() {
    let mut d = lettered();
    d.scroll(1, 'X');
    assert_eq!(back(&d), ["def", "ghi", "jkl", "XXX"]);
    d.scroll(2, 'Y');
    assert_eq!(back(&d), ["jkl", "XXX", "YYY", "YYY"]);
}

#[test]
fn scroll_up_then_down_loses_the_last_rows() {
    for k in 1..4 {
        let mut d = lettered();
        d.scroll(-k, 'U');
        d.scroll(k, 'F');
        let mut expected = vec!["abc", "def", "ghi", "jkl"];
        for row in (4 - k as usize)..4 {
            expected[row] = "FFF";
        }
        assert_eq!(back(&d), expected, "k = {k}");
    }
    let mut d = lettered();
    d.scroll(-1, 'F');
    d.scroll(1, 'F');
    assert_eq!(back(&d), ["abc", "def", "ghi", "FFF"]);
}

#[test]
fn scroll_past_the_height_leaves_only_the_fill() {
    for offset in [4, 5, 100, i32::MAX, -4, -5, -100, i32::MIN + 1, i32::MIN] {
        let mut d = lettered();
        d.scroll(offset, 'F');
        assert_eq!(back(&d), ["FFF", "FFF", "FFF", "FFF"], "offset = {offset}");
    }
    let mut d = lettered();
    d.scroll(3, 'F');
    assert_eq!(back(&d), ["jkl", "FFF", "FFF", "FFF"]);
    let mut d = lettered();
    d.scroll(-3, 'F');
    assert_eq!(back(&d), ["FFF", "FFF", "FFF", "abc"]);
}

#[test]
fn scroll_of_a_single_row_or_of_nothing() {
    let mut one: H7Display<char, 3, 1> = H7Display::new(FrameBuffer::new(), FrameBuffer::new());
    one.clear('a');
    one.scroll(-1, 'F');
    assert_eq!(back(&one), ["FFF"]);
    one.clear('a');
    one.scroll(1, 'G');
    assert_eq!(back(&one), ["GGG"]);
    let mut none: H7Display<char, 3, 0> = H7Display::new(FrameBuffer::new(), FrameBuffer::new());
    none.scroll(5, 'F');
    none.scroll(-5, 'F');
    assert_eq!(none.back_buffer().len(), 0);
}

#[test]
fn scroll_of_a_large_display_moves_every_row() {
    let mut d: H7Display<u16, 320, 240> = H7Display::new(FrameBuffer::new(), FrameBuffer::new());
    for y in 0..240 {
        d.fill_solid(&Rectangle::new(Point::new(0, y), Size::new(320, 1)), y as u16);
    }
    d.scroll(-32, 999);
    for y in 0..240usize {
        let expected = if y < 32 { 999 } else { (y - 32) as u16 };
        assert_eq!(*d.back_buffer().at(0, y), expected);
        assert_eq!(*d.back_buffer().at(319, y), expected);
    }
    d.scroll(40, 777);
    for y in 0..240usize {
        let expected = if y >= 200 { 777 } else { (y + 8) as u16 };
        assert_eq!(*d.back_buffer().at(160, y), expected);
    }
}

#[test]
fn swap_shows_what_was_drawn_and_copies_it_back() {
    let mut d = display::<3, 2>();
    d.draw_pixel(1, 0, 'X');
    assert_eq!(front(&d), ["...", "..."]);
    d.swap_buffers();
    assert_eq!(front(&d), [".X.", "..."]);
    assert_eq!(back(&d), [".X.", "..."]);
    assert_eq!(d.front_buffer().as_slice(), d.back_buffer().as_slice());
}

#[test]
fn swap_hands_out_the_new_roles() {
    let mut d = display::<3, 2>();
    d.draw_pixel(1, 0, 'X');
    let (shown, drawn) = d.swap_buffers();
    assert_eq!(rows(shown), [".X.", "..."]);
    assert_eq!(rows(drawn), [".X.", "..."]);
    *drawn.at_mut(2, 1) = 'Y';
    assert_eq!(rows(shown), [".X.", "..."]);
    assert_eq!(front(&d), [".X.", "..."]);
    assert_eq!(back(&d), [".X.", "..Y"]);
}

#[test]
fn two_swaps_restore_the_roles() {
    let mut d = display::<3, 2>();
    let first_front = address(d.front_buffer());
    let first_back = address(d.back_buffer());
    assert_ne!(first_front, first_back);
    d.draw_pixel(0, 0, 'X');
    let image = back(&d);
    d.swap_buffers();
    assert_eq!(address(d.front_buffer()), first_back);
    assert_eq!(address(d.back_buffer()), first_front);
    d.swap_buffers();
    assert_eq!(address(d.front_buffer()), first_front);
    assert_eq!(address(d.back_buffer()), first_back);
    assert_eq!(back(&d), image);
    assert_eq!(front(&d), image);
}

#[test]
fn two_swaps_of_equal_stores_change_nothing() {
    let mut d = lettered();
    d.swap_buffers();
    let shown = front(&d);
    let drawn = back(&d);
    assert_eq!(shown, drawn);
    d.swap_buffers();
    d.swap_buffers();
    assert_eq!(front(&d), shown);
    assert_eq!(back(&d), drawn);
}

#[test]
fn back_buffer_mut_writes_to_the_back_store() {
    let mut d = display::<3, 2>();
    d.back_buffer_mut().fill_range(2, 5, 'R');
    assert_eq!(back(&d), ["..R", "RR."]);
    assert_eq!(front(&d), ["...", "..."]);
    *d.back_buffer_mut().at_mut(0, 0) = 'Q';
    assert_eq!(back(&d), ["Q.R", "RR."]);
}

#[test]
fn clear_fill_and_swap_end_to_end() {
    let mut d: H7Display<char, 4, 3> = H7Display::new(FrameBuffer::new(), FrameBuffer::new());
    d.clear('A');
    d.fill_solid(&rect(1, 0, 2, 1), 'B');
    assert_eq!(back(&d), ["ABBA", "AAAA", "AAAA"]);
    d.swap_buffers();
    assert_eq!(front(&d), ["ABBA", "AAAA", "AAAA"]);
    assert_eq!(back(&d), ["ABBA", "AAAA", "AAAA"]);
    d.draw_pixel(0, 2, 'C');
    assert_eq!(front(&d), ["ABBA", "AAAA", "AAAA"]);
    assert_eq!(back(&d), ["ABBA", "AAAA", "CAAA"]);
}
