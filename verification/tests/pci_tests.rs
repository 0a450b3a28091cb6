use net_uio::pci::{
    config_space_rows, interrupt_count, interrupt_enable_command, parse_config_header, read_u16,
    reenable_interrupts_write, PciConfigHeader, COMMAND_INTERRUPT_DISABLE, PCI_COMMAND_OFFSET,
};

fn e1000_config_image() -> [u8; 256] {
    let mut buf = [0u8; 256];
    buf[0] = 0x86;
    buf[1] = 0x80;
    buf[2] = 0x0e;
    buf[3] = 0x10;
    buf[4] = 0x07;
    buf[5] = 0x01;
    buf[6] = 0x00;
    buf[7] = 0x02;
    for (i, b) in buf.iter_mut().enumerate().skip(8) {
        *b = i as u8;
    }
    buf
}

#[test]
fn read_u16_is_little_endian() {
    let buf = [0x86u8, 0x80, 0x0e, 0x10];
    assert_eq!(read_u16(&buf, 0), 0x8086);
    assert_eq!(read_u16(&buf, 2), 0x100e);
    assert_eq!(read_u16(&buf, 1), 0x0e80);
}

#[test]
fn read_u16_at_end_of_buffer() {
    let buf = [0u8, 0, 0xff, 0x7f];
    assert_eq!(read_u16(&buf, 2), 0x7fff);
}

#[test]
fn parses_e1000_header() {
    let buf = e1000_config_image();
    let h = parse_config_header(&buf);
    assert_eq!(
        h,
        PciConfigHeader { vendor_id: 0x8086, device_id: 0x100e, command: 0x0107, status: 0x0200 }
    );
}

#[test]
fn parses_header_from_eight_bytes() {
    let buf = [1u8, 2, 3, 4, 5, 6, 7, 8];
    let h = parse_config_header(&buf);
    assert_eq!(h.vendor_id, 0x0201);
    assert_eq!(h.device_id, 0x0403);
    assert_eq!(h.command, 0x0605);
    assert_eq!(h.status, 0x0807);
}

#[test]
fn interrupt_enable_command_clears_only_interrupt_disable() {
    let c = interrupt_enable_command();
    assert_eq!(c, 0xfbff);
    assert_eq!(c & COMMAND_INTERRUPT_DISABLE, 0);
    assert_eq!(c | COMMAND_INTERRUPT_DISABLE, 0xffff);
}

#[test]
fn reenable_write_targets_command_register() {
    let w = reenable_interrupts_write();
    assert_eq!(w.offset, 4);
    assert_eq!(w.offset, PCI_COMMAND_OFFSET);
    assert_eq!(w.bytes, [0xff, 0xfb]);
}

#[test]
fn command_write_reads_back() {
    let mut image = e1000_config_image();
    let before = parse_config_header(&image);
    let w = reenable_interrupts_write();
    let off = w.offset as usize;
    image[off..off + 2].copy_from_slice(&w.bytes);
    let after = parse_config_header(&image);
    assert_eq!(after.command, interrupt_enable_command());
    assert_eq!(after.vendor_id, before.vendor_id);
    assert_eq!(after.device_id, before.device_id);
    assert_eq!(after.status, before.status);
}

#[test]
fn interrupt_count_is_little_endian() {
    assert_eq!(interrupt_count(&[1, 0, 0, 0]), 1);
    assert_eq!(interrupt_count(&[0x78, 0x56, 0x34, 0x12]), 0x1234_5678);
    assert_eq!(interrupt_count(&[0xff, 0xff, 0xff, 0xff]), u32::MAX);
    assert_eq!(interrupt_count(&[0, 0, 0, 0]), 0);
}

#[test]
fn config_rows_cover_first_128_bytes() {
    let buf = e1000_config_image();
    let rows = config_space_rows(&buf);
    assert_eq!(rows.len(), 32);
    assert_eq!(rows[0].offset, 0);
    assert_eq!(rows[0].bytes, [0x86, 0x80, 0x0e, 0x10]);
    assert_eq!(rows[31].offset, 124);
    assert_eq!(rows[31].bytes, [124, 125, 126, 127]);
    for k in 0..128 {
        assert_eq!(rows[k / 4].bytes[k % 4], buf[k]);
        assert_eq!(rows[k / 4].offset, (k / 4) * 4);
    }
}
