//! End-to-end runs of the virtual machine on small hand-assembled programs.

use chip8::FrameBuffer;
use chip8::{
    Ch8Image, Ch8ImageError, ManagedInterpreter, Nibble, OpCode, Operation, RandomNumberGenerator,
};

struct ZeroRng;

impl RandomNumberGenerator for ZeroRng {
    fn random_word(&mut self) -> u8 {
        0
    }
}

fn run_rom(rom: &[u8], steps: usize) -> ManagedInterpreter<ZeroRng> {
    let image = Ch8Image::new(rom.to_vec()).unwrap();
    let mut inter = ManagedInterpreter::new(image, ZeroRng);
    for _ in 0..steps {
        inter.simulate_one_instruction().unwrap();
    }
    inter
}

fn render(inter: &ManagedInterpreter<ZeroRng>) -> Vec<String> {
    inter
        .frame_buffer()
        .iter_rows()
        .iter()
        .map(|row| row.iter().map(|v| if *v { '#' } else { '.' }).collect::<String>())
        .collect()
}

#[test]
fn draws_a_font_glyph() {
    // I = 0 (glyph "0"), V1 = 2, V2 = 3, draw 5 rows at (V1, V2), loop.
    let rom = [0xa0, 0x00, 0x61, 0x02, 0x62, 0x03, 0xd1, 0x25, 0x12, 0x08];
    let inter = run_rom(&rom, 20);
    let rows = render(&inter);
    assert_eq!(&rows[3][0..8], "..####..");
    assert_eq!(&rows[4][0..8], "..#..#..");
    assert_eq!(&rows[5][0..8], "..#..#..");
    assert_eq!(&rows[6][0..8], "..#..#..");
    assert_eq!(&rows[7][0..8], "..####..");
    for (y, row) in rows.iter().enumerate() {
        if !(3..8).contains(&y) {
            assert!(row.chars().all(|c| c == '.'), "row {y} should be blank");
        }
    }
}

#[test]
fn drawing_twice_restores_the_display() {
    // I = 0, draw glyph "0" at (0, 0) twice, loop.
    let rom = [0xa0, 0x00, 0xd0, 0x05, 0xd0, 0x05, 0x12, 0x06];
    let inter = run_rom(&rom, 10);
    let rows = render(&inter);
    for row in rows {
        assert!(row.chars().all(|c| c == '.'));
    }
}

#[test]
fn delay_timer_follows_the_schedule() {
    // V0 = 200, delay = V0, loop.
    let rom = [0x60, 0xc8, 0xf0, 0x15, 0x12, 0x04];
    let image = Ch8Image::new(rom.to_vec()).unwrap();
    let mut inter = ManagedInterpreter::new(image, ZeroRng);
    for _ in 0..48 {
        inter.simulate_one_instruction().unwrap();
    }
    // ticks at counts 8, 16, 24, 32 and 40; 48 is skipped
    assert_eq!(inter.delay_timer(), 195);
    inter.simulate_one_instruction().unwrap();
    assert_eq!(inter.delay_timer(), 195);
    inter.simulate_one_instruction().unwrap();
    // the 50th count ticks once more
    assert_eq!(inter.delay_timer(), 194);
}

#[test]
fn wait_for_key_captures_then_requires_release() {
    // wait for a key into V1; then I = 0, draw glyph "0" at (V0, V0).
    let rom = [0xf1, 0x0a, 0xa0, 0x00, 0xd0, 0x05, 0x12, 0x06];
    let image = Ch8Image::new(rom.to_vec()).unwrap();
    let mut inter = ManagedInterpreter::new(image, ZeroRng);

    // arming: discards any press, stalls
    inter.simulate_one_instruction().unwrap();
    // no press latched: stalls
    inter.simulate_one_instruction().unwrap();
    assert!(render(&inter).iter().all(|row| row.chars().all(|c| c == '.')));

    // press 5 and hold it: the key is captured, but the machine still waits
    inter.set_key_down(Nibble::try_from(5).unwrap(), true);
    inter.simulate_one_instruction().unwrap();
    inter.simulate_one_instruction().unwrap();
    assert!(render(&inter).iter().all(|row| row.chars().all(|c| c == '.')));

    // press again and release: the next poll sees the press with the key up
    // and the wait completes; the program then draws
    inter.set_key_down(Nibble::try_from(5).unwrap(), true);
    inter.set_key_down(Nibble::try_from(5).unwrap(), false);
    for _ in 0..5 {
        inter.simulate_one_instruction().unwrap();
    }
    let rows = render(&inter);
    assert_eq!(&rows[0][0..4], "####");
}

#[test]
fn simulate_duration_steps_by_milliseconds() {
    // V0 = 200, delay = V0, loop; one instruction per two milliseconds
    let rom = [0x60, 0xc8, 0xf0, 0x15, 0x12, 0x04];
    let image = Ch8Image::new(rom.to_vec()).unwrap();
    let mut inter = ManagedInterpreter::new(image, ZeroRng);
    inter.simulate_duration(core::time::Duration::from_millis(96)).unwrap();
    assert_eq!(inter.delay_timer(), 195);
}

#[test]
fn unknown_opcode_is_reported() {
    // 0x5xy1 is not in the decode table
    let rom = [0x50, 0x01];
    let image = Ch8Image::new(rom.to_vec()).unwrap();
    let mut inter = ManagedInterpreter::new(image, ZeroRng);
    assert!(inter.simulate_one_instruction().is_err());
}

#[test]
fn unsupported_opcode_is_reported() {
    // Fx29 decodes but is deliberately not implemented
    let rom = [0xf0, 0x29];
    let image = Ch8Image::new(rom.to_vec()).unwrap();
    let mut inter = ManagedInterpreter::new(image, ZeroRng);
    let r = inter.simulate_one_instruction();
    assert!(matches!(r, Err(chip8::VmError::UnsupportedOperation(_))));
}

#[test]
fn oversized_image_is_rejected() {
    let r = Ch8Image::new(vec![0u8; 4097]);
    assert!(matches!(r, Err(Ch8ImageError::TooBig)));
    assert!(Ch8Image::new(vec![0u8; 4096]).is_ok());
}

#[test]
fn decoder_reads_the_table() {
    let add = Operation::try_from(OpCode::from_bytes(0x8a, 0xb4)).unwrap();
    assert_eq!(
        add,
        Operation::AddRegister(Nibble::try_from(0xa).unwrap(), Nibble::try_from(0xb).unwrap())
    );
    let jump = Operation::try_from(OpCode::from_bytes(0x1f, 0xfe)).unwrap();
    assert!(matches!(jump, Operation::Jump(a) if a.as_u16() == 0xffe));
    let draw = Operation::try_from(OpCode::from_bytes(0xd1, 0x25)).unwrap();
    assert!(matches!(draw, Operation::Draw(_, _, _)));
    assert!(Operation::try_from(OpCode::from_bytes(0x50, 0x01)).is_err());
    assert!(Operation::try_from(OpCode::from_bytes(0xff, 0xff)).is_err());
}

#[test]
fn nibble_rejects_wide_values() {
    assert!(Nibble::try_from(15).is_ok());
    assert!(Nibble::try_from(16).is_err());
    assert_eq!(Nibble::try_from(7).unwrap().as_usize(), 7);
}

#[test]
fn fixed_random_source_drives_the_machine() {
    // V0 = random & 0xff, I = 0, draw glyph "0" at (V0, V0), loop;
    // with the fixed source the draw lands at (9, 9)
    let rom = [0xc0, 0xff, 0xa0, 0x00, 0xd0, 0x05, 0x12, 0x06];
    let image = Ch8Image::new(rom.to_vec()).unwrap();
    let mut inter = ManagedInterpreter::new(image, chip8::FixedRandom { word: 9 });
    for _ in 0..4 {
        inter.simulate_one_instruction().unwrap();
    }
    let rows = render_fixed(&inter);
    assert_eq!(&rows[9][9..13], "####");
    assert_eq!(&rows[10][9..13], "#..#");
}

fn render_fixed(inter: &ManagedInterpreter<chip8::FixedRandom>) -> Vec<String> {
    inter
        .frame_buffer()
        .iter_rows()
        .iter()
        .map(|row| row.iter().map(|v| if *v { '#' } else { '.' }).collect::<String>())
        .collect()
}

#[test]
fn framebuffer_pixels_toggle() {
    let mut fb = FrameBuffer::default();
    assert!(!fb.get(3, 2));
    fb.change(2, 3);
    assert!(fb.get(3, 2));
    fb.change(2, 3);
    assert!(!fb.get(3, 2));
    let rows = fb.iter_rows();
    assert_eq!(rows.len(), 32);
    assert!(rows.iter().all(|r| r.len() == 64));
}
