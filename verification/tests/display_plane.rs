//! The display plane: XOR drawing, collision, clipping, the dirty flag,
//! and the rendered frame buffer.

use chip8::display::{EmuDisplay, Geometry};

#[test]
fn draw_lights_cells_and_reports_no_collision_on_black() {
    let mut d = EmuDisplay::new(Geometry::Chip8);
    let carry = d.draw(&[0b1010_0001], (0, 0));
    assert_eq!(carry, 0);
    assert!(d.pixel(0, 0));
    assert!(!d.pixel(1, 0));
    assert!(d.pixel(2, 0));
    assert!(d.pixel(7, 0));
    assert!(!d.pixel(8, 0));
}

#[test]
fn draw_twice_restores_the_grid_and_second_call_collides() {
    let mut d = EmuDisplay::new(Geometry::Chip8);
    let sprite = [0xFF, 0x81, 0xFF];
    assert_eq!(d.draw(&sprite, (5, 3)), 0);
    assert!(d.pixel(5, 3));
    assert_eq!(d.draw(&sprite, (5, 3)), 1);
    for col in 0..64 {
        for row in 0..32 {
            assert!(!d.pixel(col, row));
        }
    }
}

#[test]
fn draw_all_zero_sprite_changes_nothing_and_never_collides() {
    let mut d = EmuDisplay::new(Geometry::Chip8);
    d.draw(&[0xF0], (10, 10));
    d.clear_dirty();
    let sprite = [0x00, 0x00, 0x00];
    assert_eq!(d.draw(&sprite, (10, 10)), 0);
    assert_eq!(d.draw(&sprite, (10, 10)), 0);
    assert!(d.pixel(10, 10));
    assert!(d.pixel(13, 10));
    assert!(!d.pixel(4, 10));
    assert!(!d.is_dirty());
}

#[test]
fn draw_at_right_edge_clips_to_three_columns() {
    let mut d = EmuDisplay::new(Geometry::Chip8);
    let carry = d.draw(&[0xFF, 0xFF], (61, 0));
    assert_eq!(carry, 0);
    for row in 0..2 {
        assert!(d.pixel(61, row));
        assert!(d.pixel(62, row));
        assert!(d.pixel(63, row));
        assert!(!d.pixel(0, row));
        assert!(!d.pixel(1, row));
        assert!(!d.pixel(2, row));
        assert!(!d.pixel(60, row));
    }
}

#[test]
fn draw_start_position_wraps_by_modulo() {
    let mut d = EmuDisplay::new(Geometry::Chip8);
    d.draw(&[0x80], (64, 32));
    assert!(d.pixel(0, 0));
    let mut d = EmuDisplay::new(Geometry::Chip8);
    d.draw(&[0x80], (65, 33));
    assert!(d.pixel(1, 1));
}

#[test]
fn draw_clips_at_the_bottom_edge() {
    let mut d = EmuDisplay::new(Geometry::Chip8);
    d.draw(&[0x80, 0x80, 0x80], (0, 30));
    assert!(d.pixel(0, 30));
    assert!(d.pixel(0, 31));
    assert!(!d.pixel(0, 0));
    assert!(!d.pixel(0, 1));
}

#[test]
fn super_chip_geometry_is_larger() {
    let mut d = EmuDisplay::new(Geometry::SuperChip);
    assert_eq!(d.width(), 128);
    assert_eq!(d.height(), 64);
    d.draw(&[0xFF], (125, 0));
    assert!(d.pixel(125, 0));
    assert!(d.pixel(127, 0));
    assert!(!d.pixel(0, 0));
}

#[test]
fn dirty_flag_tracks_changes_and_flushes() {
    let mut d = EmuDisplay::new(Geometry::Chip8);
    assert!(!d.is_dirty());
    d.draw(&[0x00], (0, 0));
    assert!(!d.is_dirty());
    d.draw(&[0x01], (0, 0));
    assert!(d.is_dirty());
    d.clear_dirty();
    assert!(!d.is_dirty());
    d.clear();
    assert!(d.is_dirty());
}

#[test]
fn frame_buffer_renders_lit_cells_white() {
    let mut d = EmuDisplay::new(Geometry::Chip8);
    d.draw(&[0b1000_0001], (0, 0));
    let buf = d.frame_buffer();
    assert_eq!(buf.len(), 64 * 32);
    assert_eq!(buf[0], 0x00FF_FFFF);
    assert_eq!(buf[1], 0);
    assert_eq!(buf[7], 0x00FF_FFFF);
    assert_eq!(buf[64], 0);
}

#[test]
fn clear_unlights_every_cell() {
    let mut d = EmuDisplay::new(Geometry::Chip8);
    d.draw(&[0xFF, 0xFF], (20, 5));
    d.clear();
    for col in 0..64 {
        for row in 0..32 {
            assert!(!d.pixel(col, row));
        }
    }
}
