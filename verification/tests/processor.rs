use rand::Rng;
use rust_chip8_opengl::processor::{sprites, Processor};

// Build an instruction from 4 4bit values, 0x[a][b][c][d].
fn build_inst_p(a: u8, b: u8, c: u8, d: u8) -> u16 {
    return ((a as u16 & 0x0F) << 12)
        | ((b as u16 & 0x0F) << 8)
        | ((c as u16 & 0x0F) << 4)
        | (d as u16 & 0x0F) as u16;
}

fn rand_byte_p(max: u16) -> u16 {
    return rand::thread_rng().gen_range(0..=max) as u16;
}

// The processor counterpart of the chip8 stress harness: two random
// registers with two random values, the value of register X larger
// than the value of register Y, VF set to 2 beforehand.
fn stress_test_p(f: fn(&mut Processor, u8, u8, u8, u8)) {
    let mut emu: Processor = Processor::new();
    for vx in 0..15 {
        let mut vy = rand_byte_p(0xE - 1) as u8;
        if vy >= vx {
            vy += 1;
        }
        let val_x = rand_byte_p(0xFE) as u8 + 1;
        let val_y = rand_byte_p(val_x as u16 - 1) as u8;
        emu.execute(build_inst_p(6, vx, val_x >> 4, val_x)).unwrap();
        emu.execute(build_inst_p(6, vy, val_y >> 4, val_y)).unwrap();
        assert_eq!(emu.get_register_value(vx), val_x);
        assert_eq!(emu.get_register_value(vy), val_y);
        emu.execute(build_inst_p(6, 0xF, 0, 2)).unwrap();
        f(&mut emu, vx, vy, val_x, val_y);
    }
}

#[test]
fn test_ld_vx_spr() {
    stress_test_p(|emu, x, _y, val_x, _val_y| {
        let font = sprites();
        emu.execute(build_inst_p(0xF, x, 0x2, 0x9)).unwrap();
        // Glyph slots are 6 bytes apart: 5 rows and one padding byte.
        let i = emu.get_i();
        assert_eq!(i, 6 * (val_x as u16 & 0xF));
        for j in 0..5 {
            println!("{}", j);
            assert_eq!(emu.get_mem_at(i as usize + j), font[val_x as usize & 0xF][j]);
        }
    });
}

#[test]
fn test_execute_ld_register() {
    let mut p = Processor::new();
    p.execute(0x6042).unwrap();
    assert_eq!(p.get_register_value(0), 0x42);
}

#[test]
fn test_two_digit_add_rom() {
    let mut p = Processor::new();
    let program = [0x6001, 0x6101, 0x8014];
    p.load_program_u16(&program);
    p.step().unwrap();
    p.step().unwrap();
    p.step().unwrap();
    assert_eq!(p.get_register_value(0), 0x02);
}

#[test]
fn test_add_overflow_wraps_and_sets_flag() {
    let mut p = Processor::new();
    p.execute(0x60FF).unwrap(); // V0 = 0xFF
    p.execute(0x6101).unwrap(); // V1 = 0x01
    p.execute(0x8014).unwrap(); // V0 += V1
    assert_eq!(p.get_register_value(0), 0x00);
    assert_eq!(p.get_register_value(0xF), 1);
    // A pair summing to at most 0xFF leaves VF at 0.
    p.execute(0x6020).unwrap();
    p.execute(0x6130).unwrap();
    p.execute(0x8014).unwrap();
    assert_eq!(p.get_register_value(0), 0x50);
    assert_eq!(p.get_register_value(0xF), 0);
}

#[test]
fn test_sub_borrow_flag() {
    let mut p = Processor::new();
    p.execute(0x6005).unwrap(); // V0 = 5
    p.execute(0x6107).unwrap(); // V1 = 7
    p.execute(0x8015).unwrap(); // V0 -= V1, borrow
    assert_eq!(p.get_register_value(0), 0xFE);
    assert_eq!(p.get_register_value(0xF), 0);
    p.execute(0x6009).unwrap(); // V0 = 9
    p.execute(0x6104).unwrap(); // V1 = 4
    p.execute(0x8015).unwrap(); // V0 -= V1, no borrow
    assert_eq!(p.get_register_value(0), 5);
    assert_eq!(p.get_register_value(0xF), 1);
}

#[test]
fn test_shift_reads_source_from_vy() {
    let mut p = Processor::new();
    p.execute(0x6000).unwrap(); // V0 = 0
    p.execute(0x6185).unwrap(); // V1 = 0b1000_0101
    p.execute(0x8016).unwrap(); // V0 = V1 >> 1
    assert_eq!(p.get_register_value(0), 0x42);
    assert_eq!(p.get_register_value(0xF), 1); // LSB of V1
    assert_eq!(p.get_register_value(1), 0x85);
    p.execute(0x801E).unwrap(); // V0 = V1 << 1
    assert_eq!(p.get_register_value(0), 0x0A);
    assert_eq!(p.get_register_value(0xF), 1); // MSB of V1
}

#[test]
fn test_logic_ops_clear_flag() {
    let mut p = Processor::new();
    p.execute(0x6F02).unwrap(); // VF = 2
    p.execute(0x8011).unwrap(); // OR
    assert_eq!(p.get_register_value(0xF), 0);
    p.execute(0x6F02).unwrap();
    p.execute(0x8012).unwrap(); // AND
    assert_eq!(p.get_register_value(0xF), 0);
    p.execute(0x6F02).unwrap();
    p.execute(0x8013).unwrap(); // XOR
    assert_eq!(p.get_register_value(0xF), 0);
}

#[test]
fn test_call_ret_restores_pc() {
    let mut p = Processor::new();
    let pc0 = p.get_program_counter();
    p.execute(0x2ABC).unwrap();
    assert_eq!(p.get_program_counter(), 0xABA);
    p.execute(0x00EE).unwrap();
    assert_eq!(p.get_program_counter(), pc0);
}

#[test]
fn test_nested_calls_restore_pc_sequence() {
    let mut p = Processor::new();
    let mut pcs = [0usize; 16];
    for d in 0..16u16 {
        pcs[d as usize] = p.get_program_counter();
        p.execute(0x2100 | d * 4).unwrap();
        assert_eq!(p.get_program_counter(), (0x100 + d as usize * 4) - 2);
    }
    for d in (0..16usize).rev() {
        p.execute(0x00EE).unwrap();
        assert_eq!(p.get_program_counter(), pcs[d]);
    }
}

#[test]
fn test_stack_overflow_is_error() {
    let mut p = Processor::new();
    for _ in 0..16 {
        p.execute(0x2300).unwrap();
    }
    let r = p.execute(0x2300);
    assert!(r.is_err());
}

#[test]
fn test_ret_underflow_is_error() {
    let mut p = Processor::new();
    let r = p.execute(0x00EE);
    assert!(r.is_err());
    assert_eq!(p.get_program_counter(), 0x200);
}

#[test]
fn test_invalid_opcodes_are_errors() {
    let mut p = Processor::new();
    p.execute(0x6042).unwrap();
    assert!(p.execute(0x0123).is_err()); // unmatched 0x0 word
    assert!(p.execute(0x5001).is_err()); // 5xy? with low bits set
    assert!(p.execute(0x9002).is_err()); // 9xy? with low bits set
    assert!(p.execute(0x8008).is_err()); // no 8xy8
    assert!(p.execute(0xE0FF).is_err()); // unmatched Ex byte
    assert!(p.execute(0xF0FF).is_err()); // unmatched Fx byte
    // An error leaves the state untouched.
    assert_eq!(p.get_register_value(0), 0x42);
    assert_eq!(p.get_program_counter(), 0x200);
}

#[test]
fn test_rand_is_masked() {
    let mut p = Processor::new();
    p.execute(0x60AA).unwrap();
    p.execute(0xC000).unwrap(); // mask 0x00 forces 0
    assert_eq!(p.get_register_value(0), 0);
    p.execute(0xC00F).unwrap();
    assert_eq!(p.get_register_value(0) & 0xF0, 0);
    p.execute(0xC0F0).unwrap();
    assert_eq!(p.get_register_value(0) & 0x0F, 0);
}

#[test]
fn test_on_tick_saturates_at_zero() {
    let mut p = Processor::new();
    assert_eq!(p.get_dt(), 0);
    assert_eq!(p.get_st(), 0);
    p.on_tick();
    assert_eq!(p.get_dt(), 0);
    assert_eq!(p.get_st(), 0);
    p.execute(0x6002).unwrap(); // V0 = 2
    p.execute(0xF015).unwrap(); // DT = 2
    p.execute(0x6001).unwrap(); // V0 = 1
    p.execute(0xF018).unwrap(); // ST = 1
    p.on_tick();
    assert_eq!(p.get_dt(), 1);
    assert_eq!(p.get_st(), 0);
    p.on_tick();
    assert_eq!(p.get_dt(), 0);
    assert_eq!(p.get_st(), 0);
}

#[test]
fn test_timer_moves() {
    let mut p = Processor::new();
    p.execute(0x6030).unwrap(); // V0 = 0x30
    p.execute(0xF015).unwrap(); // DT = V0
    assert_eq!(p.get_dt(), 0x30);
    p.execute(0xF107).unwrap(); // V1 = DT
    assert_eq!(p.get_register_value(1), 0x30);
}

#[test]
fn test_draw_clips_at_right_edge() {
    let mut p = Processor::new();
    // Store the row 0xFF at 0x300.
    p.execute(0x60FF).unwrap(); // V0 = 0xFF
    p.execute(0xA300).unwrap(); // I = 0x300
    p.execute(0xF055).unwrap(); // mem[0x300] = V0; I advances
    p.execute(0xA300).unwrap(); // I = 0x300 again
    p.execute(0x603C).unwrap(); // V0 = 60
    p.execute(0x6100).unwrap(); // V1 = 0
    p.execute(0xD011).unwrap(); // 8-wide sprite at (60, 0)
    // Columns 60..63 of row 0 are drawn.
    for x in 60..64u8 {
        assert!(p.get_pixel_at(x, 0));
    }
    // The four columns past the edge are clipped, not wrapped to
    // column 0.
    for x in 0..4u8 {
        assert!(!p.get_pixel_at(x, 0));
    }
    // No collision happened, so VF stays 0.
    assert_eq!(p.get_register_value(0xF), 0);
}

#[test]
fn test_draw_clips_at_bottom_edge() {
    let mut p = Processor::new();
    p.execute(0x60FF).unwrap();
    p.execute(0xA300).unwrap();
    p.execute(0xF055).unwrap();
    p.execute(0xA300).unwrap();
    p.execute(0x6000).unwrap(); // V0 = 0
    p.execute(0x611F).unwrap(); // V1 = 31, last row
    p.execute(0xD012).unwrap(); // 2 rows: the second is clipped
    for x in 0..8u8 {
        assert!(p.get_pixel_at(x, 31));
        assert!(!p.get_pixel_at(x, 0));
    }
}

#[test]
fn test_draw_collision_flag() {
    let mut p = Processor::new();
    p.execute(0x60FF).unwrap();
    p.execute(0xA300).unwrap();
    p.execute(0xF055).unwrap();
    p.execute(0xA300).unwrap();
    p.execute(0x600A).unwrap(); // V0 = 10
    p.execute(0x6105).unwrap(); // V1 = 5
    p.execute(0xD011).unwrap();
    assert_eq!(p.get_register_value(0xF), 0);
    // Drawing the same row again turns every pixel off and collides.
    p.execute(0xD011).unwrap();
    assert_eq!(p.get_register_value(0xF), 1);
    for x in 10..18u8 {
        assert!(!p.get_pixel_at(x, 5));
    }
}

#[test]
fn test_draw_font_digit_five() {
    let mut p = Processor::new();
    let font = sprites();
    p.execute(0x6005).unwrap(); // V0 = 5
    p.execute(0xF029).unwrap(); // I = glyph of 5
    assert_eq!(p.get_i(), 30);
    p.execute(0x6100).unwrap(); // V1 = 0
    p.execute(0x6200).unwrap(); // V2 = 0
    p.execute(0xD125).unwrap(); // draw 5 rows at (0, 0)
    for y in 0..5usize {
        for x in 0..8usize {
            let expected = (font[5][y] >> (7 - x)) & 1 == 1;
            assert_eq!(p.get_pixel_at(x as u8, y as u8), expected);
        }
    }
}

#[test]
fn test_clear_screen() {
    let mut p = Processor::new();
    p.execute(0x60FF).unwrap();
    p.execute(0xA300).unwrap();
    p.execute(0xF055).unwrap();
    p.execute(0xA300).unwrap();
    p.execute(0x6005).unwrap();
    p.execute(0x6105).unwrap();
    p.execute(0xD011).unwrap();
    assert!(p.get_pixel_at(5, 5));
    p.execute(0x00E0).unwrap();
    for x in 0..64u8 {
        for y in 0..32u8 {
            assert!(!p.get_pixel_at(x, y));
        }
    }
}

#[test]
fn test_store_and_load_advance_i() {
    let mut p = Processor::new();
    p.execute(0x6011).unwrap(); // V0 = 0x11
    p.execute(0x6122).unwrap(); // V1 = 0x22
    p.execute(0x6233).unwrap(); // V2 = 0x33
    p.execute(0xA300).unwrap(); // I = 0x300
    p.execute(0xF255).unwrap(); // store V0..=V2
    assert_eq!(p.get_i(), 0x303);
    assert_eq!(p.get_mem_at(0x300), 0x11);
    assert_eq!(p.get_mem_at(0x301), 0x22);
    assert_eq!(p.get_mem_at(0x302), 0x33);
    p.execute(0x6000).unwrap();
    p.execute(0x6100).unwrap();
    p.execute(0x6200).unwrap();
    p.execute(0xA300).unwrap();
    p.execute(0xF265).unwrap(); // load V0..=V2 back
    assert_eq!(p.get_i(), 0x303);
    assert_eq!(p.get_register_value(0), 0x11);
    assert_eq!(p.get_register_value(1), 0x22);
    assert_eq!(p.get_register_value(2), 0x33);
}

#[test]
fn test_bcd() {
    let mut p = Processor::new();
    p.execute(0x60EA).unwrap(); // V0 = 234
    p.execute(0xA400).unwrap();
    p.execute(0xF033).unwrap();
    assert_eq!(p.get_i(), 0x400);
    assert_eq!(p.get_mem_at(0x400), 2);
    assert_eq!(p.get_mem_at(0x401), 3);
    assert_eq!(p.get_mem_at(0x402), 4);
    p.execute(0x6007).unwrap(); // V0 = 7
    p.execute(0xF033).unwrap();
    assert_eq!(p.get_mem_at(0x400), 0);
    assert_eq!(p.get_mem_at(0x401), 0);
    assert_eq!(p.get_mem_at(0x402), 7);
}

#[test]
fn test_wait_for_key_release() {
    let mut p = Processor::new();
    // No release latched: the program counter rewinds by 2 so the
    // instruction re-executes on the next step.
    p.execute(0xF00A).unwrap();
    assert_eq!(p.get_program_counter(), 0x1FE);
    // Pressing a key is not enough.
    let mut inputs = [false; 16];
    inputs[5] = true;
    p.update_inputs(inputs);
    p.execute(0xF00A).unwrap();
    assert_eq!(p.get_program_counter(), 0x1FC);
    // Releasing it is.
    p.update_inputs([false; 16]);
    p.execute(0xF00A).unwrap();
    assert_eq!(p.get_register_value(0), 5);
    assert_eq!(p.get_program_counter(), 0x1FC);
    // The observation is consumed: the next wait stalls again.
    p.execute(0xF10A).unwrap();
    assert_eq!(p.get_program_counter(), 0x1FA);
}

#[test]
fn test_highest_released_key_wins() {
    let mut p = Processor::new();
    let mut inputs = [false; 16];
    inputs[3] = true;
    inputs[7] = true;
    p.update_inputs(inputs);
    p.update_inputs([false; 16]);
    p.execute(0xF00A).unwrap();
    assert_eq!(p.get_register_value(0), 7);
}

#[test]
fn test_skip_on_key() {
    let mut p = Processor::new();
    p.execute(0x6003).unwrap(); // V0 = 3
    let pc = p.get_program_counter();
    p.execute(0xE09E).unwrap();
    assert_eq!(p.get_program_counter(), pc);
    p.execute(0xE0A1).unwrap();
    assert_eq!(p.get_program_counter(), pc + 2);
    let mut inputs = [false; 16];
    inputs[3] = true;
    p.update_inputs(inputs);
    p.execute(0xE09E).unwrap();
    assert_eq!(p.get_program_counter(), pc + 4);
    assert!(p.get_input_state(3));
    assert!(!p.get_input_state(4));
}

#[test]
fn test_load_program_bytes() {
    let mut p = Processor::new();
    p.load_program(&[0x60, 0x42, 0x71, 0x01]);
    assert_eq!(p.get_mem_at(0x200), 0x60);
    assert_eq!(p.get_mem_at(0x201), 0x42);
    p.step().unwrap();
    assert_eq!(p.get_register_value(0), 0x42);
    p.step().unwrap();
    assert_eq!(p.get_register_value(1), 0x01);
    assert_eq!(p.get_program_counter(), 0x204);
}

#[test]
fn test_step_reports_invalid_word() {
    let mut p = Processor::new();
    p.load_program(&[0x50, 0x01]);
    let r = p.step();
    assert!(r.is_err());
    // The driver convention still advances the program counter.
    assert_eq!(p.get_program_counter(), 0x202);
}

#[test]
fn test_jump_family() {
    let mut p = Processor::new();
    p.execute(0x1300).unwrap();
    assert_eq!(p.get_program_counter(), 0x2FE);
    p.execute(0x6010).unwrap(); // V0 = 0x10
    p.execute(0xB300).unwrap(); // jump to 0x300 + V0
    assert_eq!(p.get_program_counter(), 0x30E);
}

#[test]
fn test_pixel_getter_wraps_coordinates() {
    let mut p = Processor::new();
    p.execute(0x60FF).unwrap();
    p.execute(0xA300).unwrap();
    p.execute(0xF055).unwrap();
    p.execute(0xA300).unwrap();
    p.execute(0x6000).unwrap();
    p.execute(0x6100).unwrap();
    p.execute(0xD011).unwrap(); // row at (0, 0)
    assert!(p.get_pixel_at(0, 0));
    assert_eq!(p.get_pixel_at(64, 0), p.get_pixel_at(0, 0));
    assert_eq!(p.get_pixel_at(64, 32), p.get_pixel_at(0, 0));
}

#[test]
fn test_font_table_shape() {
    let font = sprites();
    assert_eq!(font.len(), 16);
    for d in 0..16 {
        assert_eq!(font[d].len(), 5);
    }
    // The glyph of 0 as documented.
    assert_eq!(font[0], vec![0xF0, 0x90, 0x90, 0x90, 0xF0]);
    // A fresh machine holds each glyph at a 6-byte-aligned slot, with
    // a zero padding byte between slots.
    let p = Processor::new();
    for d in 0..16usize {
        for r in 0..5usize {
            assert_eq!(p.get_mem_at(6 * d + r), font[d][r]);
        }
        assert_eq!(p.get_mem_at(6 * d + 5), 0);
    }
}
