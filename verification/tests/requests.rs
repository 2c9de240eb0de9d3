//! Byte-exact request lines for each operation family.

use qtest_socket::parser::{
    encode_b64write, encode_clock_set, encode_clock_step, encode_inb, encode_inl, encode_inw,
    encode_irq_intercept_in, encode_irq_intercept_out, encode_outb, encode_outl, encode_outw,
    encode_read, encode_readb, encode_readl, encode_readq, encode_readw, encode_set_irq_in,
    encode_write, encode_writeb, encode_writel, encode_writeq, encode_writew,
};

#[test]
fn clock_requests() {
    assert_eq!(encode_clock_step(Some(5)), "clock_step 5\n");
    assert_eq!(encode_clock_step(None), "clock_step\n");
    assert_eq!(encode_clock_set(1000000), "clock_set 1000000\n");
}

#[test]
fn irq_requests() {
    assert_eq!(encode_irq_intercept_in("/machine/soc"), "irq_intercept_in /machine/soc\n");
    assert_eq!(encode_irq_intercept_out("/machine/soc"), "irq_intercept_out /machine/soc\n");
    assert_eq!(
        encode_set_irq_in("/machine/soc/gpio", "input-in", 13, 1),
        "set_irq_in /machine/soc/gpio input-in 13 1\n"
    );
    assert_eq!(
        encode_set_irq_in("/machine/soc/gpio", "input-in", 13, -1),
        "set_irq_in /machine/soc/gpio input-in 13 -1\n"
    );
}

#[test]
fn port_requests() {
    assert_eq!(encode_inb(0x1f), "inb 0x1f\n");
    assert_eq!(encode_inw(0x1f0), "inw 0x1f0\n");
    assert_eq!(encode_inl(0), "inl 0x0\n");
    assert_eq!(encode_outb(0x1f, 0xab), "outb 0x1f 0xab\n");
    assert_eq!(encode_outw(0x1f, 0xabcd), "outw 0x1f 0xabcd\n");
    assert_eq!(encode_outl(0x1f, 0xdeadbeef), "outl 0x1f 0xdeadbeef\n");
}

#[test]
fn memory_requests() {
    assert_eq!(encode_readb(0x2000), "readb 0x2000\n");
    assert_eq!(encode_readw(0x2000), "readw 0x2000\n");
    assert_eq!(encode_readl(0x2000), "readl 0x2000\n");
    assert_eq!(encode_readq(0x2000), "readq 0x2000\n");
    assert_eq!(encode_writeb(0x2000, 0x2a), "writeb 0x2000 0x2a\n");
    assert_eq!(encode_writew(0x2000, 0x2a2a), "writew 0x2000 0x2a2a\n");
    assert_eq!(encode_writel(0x2000, 0x12345678), "writel 0x2000 0x12345678\n");
    assert_eq!(encode_writeq(0x2000, 0x123456789abcdef0), "writeq 0x2000 0x123456789abcdef0\n");
}

#[test]
fn bulk_requests() {
    assert_eq!(encode_read(0x1000, 64), "read 0x1000 64\n");
    assert_eq!(encode_write(0x10, "0xdead", None), "write 0x10 6 0xdead\n");
    assert_eq!(encode_write(0x10, "dead", None), "write 0x10 4 0xdead\n");
    assert_eq!(encode_write(0x10, "dead", Some(2)), "write 0x10 2 0xdead\n");
}

#[test]
fn b64write_encodes_the_data_in_base64() {
    // `hello` is five bytes; its standard base64 is `aGVsbG8=`
    assert_eq!(encode_b64write(0x10, "hello"), "b64write 0x10 5 aGVsbG8=\n");
    assert_eq!(encode_b64write(0, ""), "b64write 0x0 0 \n");
}
