use h7_display::FrameBuffer;

fn numbered<const W: usize, const H: usize>() -> FrameBuffer<u32, W, H> {
    let mut fb: FrameBuffer<u32, W, H> = FrameBuffer::new();
    for y in 0..H {
        for x in 0..W {
            *fb.at_mut(x, y) = (100 * y + x) as u32;
        }
    }
    fb
}

#[test]
fn new_store_has_one_colour_per_pixel() {
    let fb: FrameBuffer<u16, 4, 3> = FrameBuffer::new();
    assert_eq!(fb.len(), 12);
    assert_eq!(fb.as_slice().len(), 12);
    let first = fb.as_slice()[0];
    assert!(fb.as_slice().iter().all(|&p| p == first));
}

#[test]
fn empty_stores_hold_nothing() {
    let no_columns: FrameBuffer<u8, 0, 5> = FrameBuffer::new();
    assert_eq!(no_columns.len(), 0);
    let no_rows: FrameBuffer<u8, 5, 0> = FrameBuffer::new();
    assert_eq!(no_rows.len(), 0);
    assert!(no_rows.as_slice().is_empty());
}

#[test]
fn index_is_column_plus_width_times_row() {
    assert_eq!(FrameBuffer::<u8, 4, 3>::xy_to_index(0, 0), 0);
    assert_eq!(FrameBuffer::<u8, 4, 3>::xy_to_index(1, 2), 9);
    assert_eq!(FrameBuffer::<u8, 4, 3>::xy_to_index(3, 2), 11);
    assert_eq!(FrameBuffer::<u8, 1280, 768>::xy_to_index(1279, 767), 1280 * 768 - 1);
    assert_eq!(FrameBuffer::<u8, 7, 2>::xy_to_index(3, 5), 38);
}

#[test]
fn index_is_a_bijection_onto_the_store() {
    let mut seen = vec![false; 5 * 7];
    for y in 0..7 {
        for x in 0..5 {
            let idx = FrameBuffer::<u8, 5, 7>::xy_to_index(x, y);
            assert!(idx < 5 * 7);
            assert!(!seen[idx], "({x}, {y}) shares its index");
            seen[idx] = true;
        }
    }
    assert!(seen.iter().all(|&s| s));
}

#[test]
fn at_reads_what_at_mut_wrote() {
    let fb = numbered::<4, 3>();
    assert_eq!(*fb.at(0, 0), 0);
    assert_eq!(*fb.at(3, 0), 3);
    assert_eq!(*fb.at(1, 2), 201);
    assert_eq!(fb.as_slice()[9], 201);
    assert_eq!(fb.as_slice(), &[0, 1, 2, 3, 100, 101, 102, 103, 200, 201, 202, 203]);
}

#[test]
fn at_mut_changes_one_pixel() {
    let mut fb = numbered::<4, 3>();
    *fb.at_mut(2, 1) = 7;
    assert_eq!(fb.as_slice(), &[0, 1, 2, 3, 100, 101, 7, 103, 200, 201, 202, 203]);
}

#[test]
fn fill_range_sets_a_run_of_pixels() {
    let mut fb = numbered::<4, 3>();
    fb.fill_range(3, 6, 9);
    assert_eq!(fb.as_slice(), &[0, 1, 2, 9, 9, 9, 102, 103, 200, 201, 202, 203]);
    fb.fill_range(5, 5, 1);
    assert_eq!(fb.as_slice(), &[0, 1, 2, 9, 9, 9, 102, 103, 200, 201, 202, 203]);
    fb.fill_range(0, 12, 4);
    assert_eq!(fb.as_slice(), &[4; 12]);
}

#[test]
fn fill_columns_sets_a_run_inside_one_row() {
    let mut fb = numbered::<4, 3>();
    fb.fill_columns(1, 1, 3, 9);
    assert_eq!(fb.as_slice(), &[0, 1, 2, 3, 100, 9, 9, 103, 200, 201, 202, 203]);
    fb.fill_columns(2, 4, 4, 8);
    fb.fill_columns(0, 2, 2, 8);
    assert_eq!(fb.as_slice(), &[0, 1, 2, 3, 100, 9, 9, 103, 200, 201, 202, 203]);
    fb.fill_columns(2, 0, 4, 5);
    assert_eq!(fb.as_slice(), &[0, 1, 2, 3, 100, 9, 9, 103, 5, 5, 5, 5]);
}

#[test]
fn copy_row_overwrites_one_row() {
    let mut fb = numbered::<4, 3>();
    fb.copy_row(0, 2);
    assert_eq!(fb.as_slice(), &[0, 1, 2, 3, 100, 101, 102, 103, 0, 1, 2, 3]);
    fb.copy_row(1, 1);
    assert_eq!(fb.as_slice(), &[0, 1, 2, 3, 100, 101, 102, 103, 0, 1, 2, 3]);
    fb.copy_row(1, 0);
    assert_eq!(fb.as_slice(), &[100, 101, 102, 103, 100, 101, 102, 103, 0, 1, 2, 3]);
}

#[test]
fn copy_from_takes_every_pixel() {
    let source = numbered::<3, 2>();
    let mut fb: FrameBuffer<u32, 3, 2> = FrameBuffer::new();
    fb.fill_range(0, 6, 77);
    fb.copy_from(&source);
    assert_eq!(fb.as_slice(), source.as_slice());
    assert_eq!(fb.as_slice(), &[0, 1, 2, 100, 101, 102]);
}
