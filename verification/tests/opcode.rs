use chip8::opcode::Opcode;

#[test]
fn set_from_u8() {
    let mut opcode = Opcode::new();
    opcode.set_from_u8(0x12, 0x34);

    assert_eq!(opcode.code(), 0x1234);
}

#[test]
fn nnn() {
    let mut opcode = Opcode::new();
    opcode.set_from_u16(0x1234);

    assert_eq!(opcode.nnn(), 0x0234);
}

#[test]
fn nn() {
    let mut opcode = Opcode::new();
    opcode.set_from_u16(0x1234);

    assert_eq!(opcode.nn(), 0x0034);
}

#[test]
fn n() {
    let mut opcode = Opcode::new();
    opcode.set_from_u16(0x1234);

    assert_eq!(opcode.n(), 0x0004);
}

#[test]
fn x() {
    let mut opcode = Opcode::new();
    opcode.set_from_u16(0x1234);

    assert_eq!(opcode.x(), 0x2);
}

#[test]
fn y() {
    let mut opcode = Opcode::new();
    opcode.set_from_u16(0x1234);

    assert_eq!(opcode.y(), 0x3);
}

#[test]
fn set_from_u16_roundtrip() {
    let mut opcode = Opcode::new();
    opcode.set_from_u16(0xABCD);

    assert_eq!(opcode.code(), 0xABCD);
    assert_eq!(opcode.x(), 0xB);
    assert_eq!(opcode.y(), 0xC);
}
