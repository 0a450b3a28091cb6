use net_uio::e1000::{
    link_status_interrupt_writes, receiver_setup_writes, rx_buffer_addrs, rx_ring_image,
    split_address, RegisterWrite, RxDescriptor, BAR0_MAP_SIZE, CTRL, ICR, ICS, IMC, IMS,
    IMS_LSC, IMS_RXT0, ITR, RCTL, RCTL_EN, RCTL_MPE, RCTL_UPE, RDBAH, RDBAL, RDH, RDLEN, RDT,
    RDTR, RX_BUFFER_SIZE, RX_DESCRIPTOR_SIZE, RX_RING_LEN, STATUS,
};
use net_uio::memory::HUGE_PAGE_SIZE;

fn w(offset: isize, value: u32) -> RegisterWrite {
    RegisterWrite { offset, value }
}

#[test]
fn descriptor_bytes_are_little_endian_fields() {
    let d = RxDescriptor {
        buffer_addr: 0x1122_3344_5566_7788,
        length: 0x99aa,
        checksum: 0xbbcc,
        status: 0xdd,
        errors: 0xee,
        special: 0x0102,
    };
    assert_eq!(
        d.to_bytes(),
        vec![0x88, 0x77, 0x66, 0x55, 0x44, 0x33, 0x22, 0x11, 0xaa, 0x99, 0xcc, 0xbb, 0xdd, 0xee, 0x02, 0x01]
    );
}

#[test]
fn descriptor_for_buffer_zeroes_other_fields() {
    let d = RxDescriptor::for_buffer(0x1234_5000);
    assert_eq!(d.length, 0);
    assert_eq!(d.status, 0);
    assert_eq!(d.to_bytes(), vec![0x00, 0x50, 0x34, 0x12, 0, 0, 0, 0, 0, 0, 0, 0, 0, 0, 0, 0]);
    assert_eq!(d.to_bytes().len(), RX_DESCRIPTOR_SIZE as usize);
}

#[test]
fn buffers_follow_each_other() {
    let base = 0x1_2340_0000usize;
    let addrs = rx_buffer_addrs(base);
    assert_eq!(addrs.len(), RX_RING_LEN);
    for (i, a) in addrs.iter().enumerate() {
        assert_eq!(*a, base + i * 2048);
    }
}

#[test]
fn buffers_are_disjoint_and_inside_huge_page() {
    let base = 0x4000_0000usize;
    let addrs = rx_buffer_addrs(base);
    for i in 0..RX_RING_LEN {
        for j in i + 1..RX_RING_LEN {
            assert!(addrs[i] + RX_BUFFER_SIZE <= addrs[j]);
        }
        assert!(addrs[i] >= base && addrs[i] + RX_BUFFER_SIZE <= base + HUGE_PAGE_SIZE);
    }
}

#[test]
fn buffers_at_top_of_address_space() {
    let base = usize::MAX - 7 * 2048;
    let addrs = rx_buffer_addrs(base);
    assert_eq!(addrs[7], usize::MAX);
}

#[test]
fn ring_image_points_at_buffers() {
    let addrs = rx_buffer_addrs(0x1234_5000);
    let ring = rx_ring_image(&addrs);
    assert_eq!(ring.len(), 128);
    for i in 0..RX_RING_LEN {
        let d = &ring[16 * i..16 * i + 16];
        assert_eq!(u64::from_le_bytes(d[0..8].try_into().unwrap()), addrs[i] as u64);
        assert!(d[8..].iter().all(|b| *b == 0));
    }
}

#[test]
fn split_address_halves() {
    assert_eq!(split_address(0x1_2345_6789), (0x1, 0x2345_6789));
    assert_eq!(split_address(0xffff_ffff), (0, 0xffff_ffff));
    assert_eq!(split_address(usize::MAX), (0xffff_ffff, 0xffff_ffff));
    let (hi, lo) = split_address(0xdead_beef_0000_1000);
    assert_eq!(((hi as u64) << 32) | lo as u64, 0xdead_beef_0000_1000);
}

#[test]
fn link_status_writes_set_lsc_twice() {
    assert_eq!(link_status_interrupt_writes(), vec![w(IMS, 0b100), w(IMS, 0b100)]);
    assert_eq!(IMS_LSC, 1 << 2);
}

#[test]
fn receiver_setup_plan_is_exact() {
    let writes = receiver_setup_writes(0x1_2340_0000);
    assert_eq!(
        writes,
        vec![
            w(RCTL, 0),
            w(RCTL, RCTL_UPE | RCTL_MPE),
            w(RDBAH, 0x1),
            w(RDBAL, 0x2340_0000),
            w(RDLEN, 128),
            w(RDH, 0),
            w(RDT, 1),
            w(RDTR, 0),
            w(IMS, 1 << 7),
            w(RCTL, RCTL_UPE | RCTL_MPE | RCTL_EN),
        ]
    );
    assert_eq!(IMS_RXT0, 1 << 7);
}

#[test]
fn receiver_enabled_by_last_write_only() {
    let writes = receiver_setup_writes(0x5000);
    let last = writes.len() - 1;
    for wr in &writes[..last] {
        if wr.offset == RCTL {
            assert_eq!(wr.value & RCTL_EN, 0);
        }
    }
    assert_eq!(writes[last].offset, RCTL);
    assert_eq!(writes[last].value, 0x1a);
}

#[test]
fn ring_base_registers_carry_address() {
    let pa = 0xabcd_0012_3400_0000usize;
    let writes = receiver_setup_writes(pa);
    assert_eq!(writes[2].offset, RDBAH);
    assert_eq!(writes[3].offset, RDBAL);
    assert_eq!(((writes[2].value as u64) << 32) + writes[3].value as u64, pa as u64);
}

#[test]
fn ring_length_matches_ring_image() {
    let writes = receiver_setup_writes(0);
    let ring = rx_ring_image(&rx_buffer_addrs(0));
    assert_eq!(writes[4], w(RDLEN, ring.len() as u32));
    assert_eq!(writes[4].value % 128, 0);
}

#[test]
fn registers_lie_in_window() {
    let all = [CTRL, STATUS, ICR, ITR, ICS, IMS, IMC, RCTL, RDBAL, RDBAH, RDLEN, RDH, RDT, RDTR];
    for off in all {
        assert!(off >= 0 && off as usize + 4 <= BAR0_MAP_SIZE && off % 4 == 0);
    }
    for wr in receiver_setup_writes(0x1000).iter().chain(link_status_interrupt_writes().iter()) {
        assert!(wr.offset >= 0 && wr.offset as usize + 4 <= BAR0_MAP_SIZE && wr.offset % 4 == 0);
    }
}
