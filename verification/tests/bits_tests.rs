use analytic_engine::bits::{Bit, BufferedWriter};

#[test]
fn write_bit() {
    let mut b = BufferedWriter::with_capacity(0);

    // 170 = 0b10101010
    for i in 0..8 {
        if i % 2 == 0 {
            b.write_bit(Bit(1));
            continue;
        }

        b.write_bit(Bit(0));
    }

    // 146 = 0b10010010
    for i in 0..8 {
        if i % 3 == 0 {
            b.write_bit(Bit(1));
            continue;
        }

        b.write_bit(Bit(0));
    }

    // 136 = 0b10001000
    for i in 0..8 {
        if i % 4 == 0 {
            b.write_bit(Bit(1));
            continue;
        }

        b.write_bit(Bit(0));
    }

    assert_eq!(b.len(), 3);
    let buf = b.close();
    assert_eq!(buf[0], 170);
    assert_eq!(buf[1], 146);
    assert_eq!(buf[2], 136);
}

#[test]
fn write_byte() {
    let mut b = BufferedWriter::with_capacity(0);

    b.write_byte(234);
    b.write_byte(188);
    b.write_byte(77);

    assert_eq!(b.len(), 3);
    let buf = b.close();
    assert_eq!(buf[0], 234);
    assert_eq!(buf[1], 188);
    assert_eq!(buf[2], 77);

    // write some bits so we can check `write_byte` when the last byte is
    // partially filled
    let mut b = BufferedWriter::with_capacity(0);
    b.write_byte(234);
    b.write_byte(188);
    b.write_byte(77);
    b.write_bit(Bit(1));
    b.write_bit(Bit(1));
    b.write_bit(Bit(1));
    b.write_bit(Bit(1));
    b.write_byte(0b11110000); // 1111 1111 0000
    b.write_byte(0b00001111); // 1111 1111 0000 0000 1111
    b.write_byte(0b00001111); // 1111 1111 0000 0000 1111 0000 1111

    assert_eq!(b.len(), 7);
    let buf = b.close();
    assert_eq!(buf[3], 255); // 0b11111111 = 255
    assert_eq!(buf[4], 0); // 0b00000000 = 0
    assert_eq!(buf[5], 240); // 0b11110000 = 240
}

#[test]
fn write_bits() {
    let mut b = BufferedWriter::with_capacity(0);

    // 101011
    b.write_bits(43, 6);

    // 010
    b.write_bits(2, 3);

    // 1
    b.write_bits(1, 1);

    // 1010 1100 1110 0011 1101
    b.write_bits(708157, 20);

    // 11
    b.write_bits(3, 2);

    assert_eq!(b.len(), 4);
    let buf = b.close();
    assert_eq!(buf[0], 173); // 0b10101101 = 173
    assert_eq!(buf[1], 107); // 0b01101011 = 107
    assert_eq!(buf[2], 56); // 0b00111000 = 56
    assert_eq!(buf[3], 247); // 0b11110111 = 247
}

#[test]
fn write_mixed() {
    let mut b = BufferedWriter::with_capacity(0);

    // 1010 1010
    for i in 0..8 {
        if i % 2 == 0 {
            b.write_bit(Bit(1));
            continue;
        }

        b.write_bit(Bit(0));
    }

    // 0000 1001
    b.write_byte(9);

    // 1001 1100 1100
    b.write_bits(2508, 12);

    // 1111
    for _ in 0..4 {
        b.write_bit(Bit(1));
    }

    assert_eq!(b.len(), 4);
    let buf = b.close();
    assert_eq!(buf[0], 170); // 0b10101010 = 170
    assert_eq!(buf[1], 9); // 0b00001001 = 9
    assert_eq!(buf[2], 156); // 0b10011100 = 156
    assert_eq!(buf[3], 207); // 0b11001111 = 207
}
