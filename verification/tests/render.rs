use raycast_tui::render::Renderer;

fn frame(width: usize, height: usize, columns: &[(usize, usize, u8)]) -> String {
    let ceiling: Vec<u8> = (10..30).collect();
    let floor: Vec<u8> = (200..220).collect();
    let mut r = Renderer::new();
    r.resize_pixels(width, height * 2);
    for (x, &(start, end, wall)) in columns.iter().enumerate() {
        r.paint_column(width, height * 2, x, start, end, wall, &ceiling, &floor);
    }
    r.encode_half_blocks(width, height);
    r.output().to_string()
}

#[test]
fn single_cell_frame() {
    let mut r = Renderer::new();
    r.resize_pixels(1, 2);
    r.paint_column(1, 2, 0, 1, 2, 5, &[7, 7, 7], &[9, 9, 9]);
    r.encode_half_blocks(1, 1);
    assert_eq!(r.output(), "\x1b[H\x1b[38;5;7m\x1b[48;5;5m\u{2580}\x1b[0m");
}

#[test]
fn colours_are_sent_only_on_change_and_after_each_row() {
    let out = frame(2, 2, &[(0, 4, 100), (0, 4, 100)]);
    assert_eq!(
        out,
        "\x1b[H\x1b[38;5;100m\x1b[48;5;100m\u{2580}\u{2580}\x1b[0m\r\n\x1b[38;5;100m\x1b[48;5;100m\u{2580}\u{2580}\x1b[0m"
    );
}

#[test]
fn column_has_ceiling_wall_and_floor() {
    // rows: 0 ceiling[1] = 11, 1 and 2 wall 50, 3 floor[0] = 200
    let out = frame(1, 2, &[(1, 3, 50)]);
    assert_eq!(
        out,
        "\x1b[H\x1b[38;5;11m\x1b[48;5;50m\u{2580}\x1b[0m\r\n\x1b[38;5;50m\x1b[48;5;200m\u{2580}\x1b[0m"
    );
}

#[test]
fn floor_wins_when_start_passes_end() {
    // rows: 0 ceiling[3] = 13, 1.. floor from row 1: 200, 201, 202
    let out = frame(1, 2, &[(3, 1, 50)]);
    assert_eq!(
        out,
        "\x1b[H\x1b[38;5;13m\x1b[48;5;200m\u{2580}\x1b[0m\r\n\x1b[38;5;201m\x1b[48;5;202m\u{2580}\x1b[0m"
    );
}

#[test]
fn blank_pixels_send_colour_zero() {
    let mut r = Renderer::new();
    r.resize_pixels(2, 2);
    r.encode_half_blocks(2, 1);
    assert_eq!(
        r.output(),
        "\x1b[H\x1b[38;5;0m\x1b[48;5;0m\u{2580}\u{2580}\x1b[0m"
    );
}

#[test]
fn one_digit_and_three_digit_colours() {
    let mut r = Renderer::new();
    r.resize_pixels(1, 2);
    r.paint_column(1, 2, 0, 0, 1, 3, &[0], &[255, 255]);
    r.encode_half_blocks(1, 1);
    assert_eq!(r.output(), "\x1b[H\x1b[38;5;3m\x1b[48;5;255m\u{2580}\x1b[0m");
}

#[test]
fn one_half_block_per_cell() {
    let out = frame(5, 3, &[(0, 6, 88), (1, 5, 94), (2, 4, 220), (3, 3, 226), (6, 0, 39)]);
    assert_eq!(out.chars().filter(|&c| c == '\u{2580}').count(), 15);
    assert!(out.starts_with("\x1b[H"));
    assert!(out.ends_with("\x1b[0m"));
    assert_eq!(out.matches("\r\n").count(), 2);
}

#[test]
fn encoding_again_replaces_the_frame() {
    let mut r = Renderer::new();
    r.resize_pixels(1, 2);
    r.encode_half_blocks(1, 1);
    r.paint_column(1, 2, 0, 0, 2, 7, &[0], &[0]);
    r.encode_half_blocks(1, 1);
    assert_eq!(r.output(), "\x1b[H\x1b[38;5;7m\x1b[48;5;7m\u{2580}\x1b[0m");
}

#[test]
fn resize_keeps_painted_pixels() {
    let mut r = Renderer::new();
    r.resize_pixels(1, 2);
    r.paint_column(1, 2, 0, 0, 2, 42, &[0], &[0]);
    r.resize_pixels(1, 4);
    r.encode_half_blocks(1, 2);
    assert_eq!(
        r.output(),
        "\x1b[H\x1b[38;5;42m\x1b[48;5;42m\u{2580}\x1b[0m\r\n\x1b[38;5;0m\x1b[48;5;0m\u{2580}\x1b[0m"
    );
}

#[test]
fn screen_is_cleared_on_first_frame_resize_and_request() {
    let mut r = Renderer::new();
    assert!(r.note_size((80, 24)));
    assert!(!r.note_size((80, 24)));
    assert!(r.note_size((81, 24)));
    assert!(r.note_size((81, 25)));
    assert!(!r.note_size((81, 25)));
    r.invalidate();
    assert!(r.note_size((81, 25)));
    assert!(!r.note_size((81, 25)));
}

#[test]
fn fit_pixels_sizes_two_rows_per_cell() {
    let mut r = Renderer::new();
    assert_eq!(r.fit_pixels((0, 10)), None);
    assert_eq!(r.fit_pixels((10, 0)), None);
    assert_eq!(r.fit_pixels((3, 2)), Some((3, 4)));
    r.encode_half_blocks(3, 2);
    assert_eq!(
        r.output(),
        "\x1b[H\x1b[38;5;0m\x1b[48;5;0m\u{2580}\u{2580}\u{2580}\x1b[0m\r\n\x1b[38;5;0m\x1b[48;5;0m\u{2580}\u{2580}\u{2580}\x1b[0m"
    );
}

#[test]
fn longer_buffer_encodes_its_first_pixels() {
    let mut r = Renderer::new();
    r.resize_pixels(1, 4);
    r.paint_column(1, 4, 0, 0, 4, 9, &[0], &[0]);
    // only the first two pixel rows form the one terminal row
    r.paint_column(1, 2, 0, 0, 1, 3, &[0], &[5, 5]);
    r.encode_half_blocks(1, 1);
    assert_eq!(r.output(), "\x1b[H\x1b[38;5;3m\x1b[48;5;5m\u{2580}\x1b[0m");
}

#[test]
fn needs_clear_does_not_record_the_size() {
    let mut r = Renderer::new();
    assert!(r.needs_clear((80, 24)));
    assert!(r.needs_clear((80, 24)));
    assert!(r.note_size((80, 24)));
    assert!(!r.needs_clear((80, 24)));
    assert!(r.needs_clear((80, 25)));
    r.invalidate();
    assert!(r.needs_clear((80, 24)));
}
