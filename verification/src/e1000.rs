//! Registers of the Intel 8254x family (82540EM as emulated by QEMU's
//! `e1000`), and the plan of register writes that sets up the receive ring.

use vstd::prelude::*;
use crate::le::{le_value, le_bytes_u16, le_bytes_u64, lemma_le_value_2};
use crate::memory::HUGE_PAGE_SIZE;

verus! {

// Register offsets in BAR0.
/// Device Control.
pub const CTRL: isize = 0x0;
/// Device Status.
pub const STATUS: isize = 0x8;
/// Interrupt Cause Read.
pub const ICR: isize = 0x00c0;
/// Interrupt Throttling.
pub const ITR: isize = 0x00c4;
/// Interrupt Cause Set.
pub const ICS: isize = 0x00c8;
/// Interrupt Mask Set/Read.
pub const IMS: isize = 0x00d0;
/// Interrupt Mask Clear.
pub const IMC: isize = 0x00d8;
/// Receive Control.
pub const RCTL: isize = 0x0100;
/// Receive Descriptor Base Address Low.
pub const RDBAL: isize = 0x2800;
/// Receive Descriptor Base Address High.
pub const RDBAH: isize = 0x2804;
/// Receive Descriptor Length.
pub const RDLEN: isize = 0x2808;
/// Receive Descriptor Head.
pub const RDH: isize = 0x2810;
/// Receive Descriptor Tail.
pub const RDT: isize = 0x2818;
/// Receive Delay Timer.
pub const RDTR: isize = 0x2820;

/// RCTL: receiver enable (bit 1).
pub const RCTL_EN: u32 = 0x2;
/// RCTL: unicast promiscuous enable (bit 3).
pub const RCTL_UPE: u32 = 0x8;
/// RCTL: multicast promiscuous enable (bit 4).
pub const RCTL_MPE: u32 = 0x10;

/// IMS: link status change interrupt (bit 2).
pub const IMS_LSC: u32 = 0x4;
/// IMS: receiver timer interrupt (bit 7).
pub const IMS_RXT0: u32 = 0x80;

/// Size in bytes of the BAR0 register window that is mapped.
pub const BAR0_MAP_SIZE: usize = 131072;

/// Number of receive descriptors in the ring.
pub const RX_RING_LEN: usize = 8;
/// Size in bytes of each receive buffer.
pub const RX_BUFFER_SIZE: usize = 2048;
/// Size in bytes of a receive descriptor.
pub const RX_DESCRIPTOR_SIZE: u32 = 16;

/// Whether a 32-bit register at `offset` lies inside the mapped BAR0 window
/// and is aligned to its size.
pub open spec fn register_in_window(offset: isize) -> bool {
    &&& 0 <= offset
    &&& offset + 4 <= BAR0_MAP_SIZE
    &&& offset % 4 == 0
}

/// A write of `value` to the register at `offset`.
#[derive(Clone, Copy, Debug, PartialEq, Eq)]
pub struct RegisterWrite {
    pub offset: isize,
    pub value: u32,
}

/// A legacy receive descriptor.
#[derive(Clone, Copy, Debug, PartialEq, Eq)]
pub struct RxDescriptor {
    pub buffer_addr: u64,
    pub length: u16,
    pub checksum: u16,
    pub status: u8,
    pub errors: u8,
    pub special: u16,
}

/// Whether `b` is the in-memory image of `d`: its fields in order,
/// little-endian, in 16 bytes.
pub open spec fn descriptor_image(d: RxDescriptor, b: Seq<u8>) -> bool {
    &&& b.len() == RX_DESCRIPTOR_SIZE
    &&& le_value(b.subrange(0, 8)) == d.buffer_addr as nat
    &&& le_value(b.subrange(8, 10)) == d.length as nat
    &&& le_value(b.subrange(10, 12)) == d.checksum as nat
    &&& b[12] == d.status
    &&& b[13] == d.errors
    &&& le_value(b.subrange(14, 16)) == d.special as nat
}

impl RxDescriptor {
    /// The descriptor for the buffer at `buffer_addr`, every other field zero.
    pub open spec fn for_buffer_spec(buffer_addr: u64) -> RxDescriptor {
        RxDescriptor { buffer_addr, length: 0, checksum: 0, status: 0, errors: 0, special: 0 }
    }

    /// A descriptor handed to the device: the physical address of its buffer,
    /// every other field zero.
    pub fn for_buffer(buffer_addr: u64) -> (d: RxDescriptor)
        ensures
            d == RxDescriptor::for_buffer_spec(buffer_addr),
            d.buffer_addr == buffer_addr,
            d.length == 0 && d.checksum == 0 && d.status == 0 && d.errors == 0 && d.special == 0,
    {
        RxDescriptor { buffer_addr, length: 0, checksum: 0, status: 0, errors: 0, special: 0 }
    }

    /// The 16 bytes that the device reads for this descriptor.
    pub fn to_bytes(&self) -> (b: Vec<u8>)
        ensures
            descriptor_image(*self, b@),
    {
        let addr = le_bytes_u64(self.buffer_addr);
        let length = le_bytes_u16(self.length);
        let checksum = le_bytes_u16(self.checksum);
        let special = le_bytes_u16(self.special);
        let mut b: Vec<u8> = Vec::new();
        let mut i: usize = 0;
        while i < 8
            invariant
                i <= 8,
                b@ == addr@.take(i as int),
            decreases 8 - i,
        {
            b.push(addr[i]);
            i = i + 1;
        }
        b.push(length[0]);
        b.push(length[1]);
        b.push(checksum[0]);
        b.push(checksum[1]);
        b.push(self.status);
        b.push(self.errors);
        b.push(special[0]);
        b.push(special[1]);
        assert(b@.subrange(0, 8) == addr@);
        assert(b@.subrange(8, 10) == length@);
        assert(b@.subrange(10, 12) == checksum@);
        assert(b@.subrange(14, 16) == special@);
        b
    }
}

/// The physical address of receive buffer `i` when the buffers are laid out
/// one after the other from `base`.
pub open spec fn rx_buffer_addr(base: usize, i: int) -> int {
    base + i * RX_BUFFER_SIZE
}

/// The physical addresses of the receive buffers, laid out one after the
/// other in the buffer region that starts at `base`.
pub fn rx_buffer_addrs(base: usize) -> (addrs: Vec<usize>)
    requires
        base + (RX_RING_LEN - 1) * RX_BUFFER_SIZE <= usize::MAX,
    ensures
        addrs@.len() == RX_RING_LEN,
        forall|i: int| 0 <= i < RX_RING_LEN ==> #[trigger] addrs@[i] == rx_buffer_addr(base, i),
        forall|i: int| 0 <= i < 8 ==> #[trigger] addrs@[i] as int == base as int + 2048 * i,
        addrs@[0] == base,
        forall|i: int| 0 <= i < 7 ==> #[trigger] addrs@[i + 1] == addrs@[i] + 2048,
{
    let mut addrs: Vec<usize> = Vec::new();
    let mut i: usize = 0;
    while i < RX_RING_LEN
        invariant
            i <= RX_RING_LEN,
            base + (RX_RING_LEN - 1) * RX_BUFFER_SIZE <= usize::MAX,
            addrs@.len() == i,
            forall|k: int| 0 <= k < i ==> #[trigger] addrs@[k] == rx_buffer_addr(base, k),
        decreases RX_RING_LEN - i,
    {
        let off: usize = i * RX_BUFFER_SIZE;
        addrs.push(base + off);
        i = i + 1;
    }
    proof {
        lemma_rx_buffers_consecutive(base);
    }
    addrs
}

/// The image of the receive descriptor ring: descriptor `i` points at buffer
/// `i`, all its other fields zero.
pub fn rx_ring_image(buffers: &Vec<usize>) -> (ring: Vec<u8>)
    requires
        buffers@.len() == RX_RING_LEN,
    ensures
        ring@.len() == RX_RING_LEN * RX_DESCRIPTOR_SIZE,
        forall|i: int|
            0 <= i < RX_RING_LEN ==> descriptor_image(
                RxDescriptor::for_buffer_spec(buffers@[i] as u64),
                #[trigger] ring@.subrange(16 * i, 16 * i + 16),
            ),
        forall|i: int|
            0 <= i < RX_RING_LEN ==> le_value(#[trigger] ring@.subrange(16 * i, 16 * i + 8))
                == buffers@[i] as nat,
        forall|i: int, j: int|
            0 <= i < RX_RING_LEN && 8 <= j < 16 ==> #[trigger] ring@[16 * i + j] == 0,
{
    let mut ring: Vec<u8> = Vec::new();
    let mut i: usize = 0;
    while i < RX_RING_LEN
        invariant
            i <= RX_RING_LEN,
            buffers@.len() == RX_RING_LEN,
            ring@.len() == 16 * i,
            forall|k: int|
                0 <= k < i ==> descriptor_image(
                    RxDescriptor::for_buffer_spec(buffers@[k] as u64),
                    #[trigger] ring@.subrange(16 * k, 16 * k + 16),
                ),
        decreases RX_RING_LEN - i,
    {
        let d = RxDescriptor::for_buffer(buffers[i] as u64);
        let bytes = d.to_bytes();
        let ghost before = ring@;
        let mut j: usize = 0;
        while j < 16
            invariant
                j <= 16,
                bytes@.len() == 16,
                ring@ == before + bytes@.take(j as int),
            decreases 16 - j,
        {
            ring.push(bytes[j]);
            j = j + 1;
        }
        assert(ring@ == before + bytes@);
        assert forall|k: int| 0 <= k <= i implies descriptor_image(
            RxDescriptor::for_buffer_spec(buffers@[k] as u64),
            #[trigger] ring@.subrange(16 * k, 16 * k + 16),
        ) by {
            if k < i {
                assert(ring@.subrange(16 * k, 16 * k + 16) == before.subrange(16 * k, 16 * k + 16));
            } else {
                assert(ring@.subrange(16 * k, 16 * k + 16) == bytes@);
            }
        }
        i = i + 1;
    }
    assert forall|i: int| 0 <= i < RX_RING_LEN implies le_value(
        #[trigger] ring@.subrange(16 * i, 16 * i + 8),
    ) == buffers@[i] as nat by {
        let b = ring@.subrange(16 * i, 16 * i + 16);
        assert(descriptor_image(RxDescriptor::for_buffer_spec(buffers@[i] as u64), b));
        lemma_descriptor_for_buffer(buffers@[i] as u64, b);
        assert(b.subrange(0, 8) == ring@.subrange(16 * i, 16 * i + 8));
    }
    assert forall|i: int, j: int| 0 <= i < RX_RING_LEN && 8 <= j < 16 implies #[trigger] ring@[16
        * i + j] == 0 by {
        let b = ring@.subrange(16 * i, 16 * i + 16);
        assert(descriptor_image(RxDescriptor::for_buffer_spec(buffers@[i] as u64), b));
        lemma_descriptor_for_buffer(buffers@[i] as u64, b);
        assert(b[j] == ring@[16 * i + j]);
    }
    ring
}

/// The high and low 32-bit halves of an address.
pub fn split_address(addr: usize) -> (halves: (u32, u32))
    ensures
        halves.0 as nat == addr as nat / 0x1_0000_0000,
        halves.1 as nat == addr as nat % 0x1_0000_0000,
        halves.0 as nat * 0x1_0000_0000 + halves.1 as nat == addr as nat,
{
    let a: u64 = addr as u64;
    let hi_bits: u64 = (a & 0xffff_ffff_0000_0000u64) >> 32u64;
    let lo_bits: u64 = a & 0x0000_0000_ffff_ffffu64;
    assert(hi_bits == a / 0x1_0000_0000u64 && lo_bits == a % 0x1_0000_0000u64
        && hi_bits <= 0xffff_ffffu64 && lo_bits <= 0xffff_ffffu64) by (bit_vector)
        requires
            hi_bits == (a & 0xffff_ffff_0000_0000u64) >> 32u64,
            lo_bits == a & 0x0000_0000_ffff_ffffu64,
    ;
    (hi_bits as u32, lo_bits as u32)
}

/// Whether an RCTL value has the receiver enable bit set.
pub open spec fn rctl_enables_receiver(value: u32) -> bool {
    (value / 2) % 2 == 1
}

/// The writes that enable the link status change interrupt, as the driver
/// issues them before it allocates its DMA memory: IMS with the LSC bit, twice.
pub open spec fn link_status_plan() -> Seq<RegisterWrite> {
    seq![
        RegisterWrite { offset: IMS, value: IMS_LSC },
        RegisterWrite { offset: IMS, value: IMS_LSC },
    ]
}

/// The writes that configure the receiver for a descriptor ring at physical
/// address `ring_pa`: disable the receiver, set unicast and multicast
/// promiscuous mode with 2048-byte buffers, program the ring's base address
/// (high half first), its length, head 0 and tail 1, no receive delay, unmask
/// the receiver timer interrupt, and last enable the receiver.
pub open spec fn receiver_setup_plan(ring_pa: usize) -> Seq<RegisterWrite> {
    seq![
        RegisterWrite { offset: RCTL, value: 0 },
        RegisterWrite { offset: RCTL, value: 0x18 },
        RegisterWrite { offset: RDBAH, value: (ring_pa as nat / 0x1_0000_0000) as u32 },
        RegisterWrite { offset: RDBAL, value: (ring_pa as nat % 0x1_0000_0000) as u32 },
        RegisterWrite { offset: RDLEN, value: 128 },
        RegisterWrite { offset: RDH, value: 0 },
        RegisterWrite { offset: RDT, value: 1 },
        RegisterWrite { offset: RDTR, value: 0 },
        RegisterWrite { offset: IMS, value: IMS_RXT0 },
        RegisterWrite { offset: RCTL, value: 0x1a },
    ]
}

/// The writes that enable link status change interrupts.
pub fn link_status_interrupt_writes() -> (writes: Vec<RegisterWrite>)
    ensures
        writes@ == link_status_plan(),
{
    let mut writes: Vec<RegisterWrite> = Vec::new();
    writes.push(RegisterWrite { offset: IMS, value: IMS_LSC });
    writes.push(RegisterWrite { offset: IMS, value: IMS_LSC });
    writes
}

/// The writes that configure and enable the receiver for the descriptor ring
/// at physical address `ring_pa`, in the order they are issued.
pub fn receiver_setup_writes(ring_pa: usize) -> (writes: Vec<RegisterWrite>)
    ensures
        writes@ == receiver_setup_plan(ring_pa),
{
    let rctl: u32 = RCTL_UPE | RCTL_MPE;
    let enabled: u32 = rctl | RCTL_EN;
    assert(rctl == 0x18u32 && enabled == 0x1au32) by (bit_vector)
        requires
            rctl == 0x8u32 | 0x10u32,
            enabled == rctl | 0x2u32,
    ;
    let (rdbah, rdbal) = split_address(ring_pa);
    let rdlen: u32 = (RX_RING_LEN as u32) * RX_DESCRIPTOR_SIZE;
    let mut writes: Vec<RegisterWrite> = Vec::new();
    writes.push(RegisterWrite { offset: RCTL, value: 0 });
    writes.push(RegisterWrite { offset: RCTL, value: rctl });
    writes.push(RegisterWrite { offset: RDBAH, value: rdbah });
    writes.push(RegisterWrite { offset: RDBAL, value: rdbal });
    writes.push(RegisterWrite { offset: RDLEN, value: rdlen });
    writes.push(RegisterWrite { offset: RDH, value: 0 });
    writes.push(RegisterWrite { offset: RDT, value: 1 });
    writes.push(RegisterWrite { offset: RDTR, value: 0 });
    writes.push(RegisterWrite { offset: IMS, value: IMS_RXT0 });
    writes.push(RegisterWrite { offset: RCTL, value: enabled });
    writes
}

/// Every register that the driver reads or writes lies inside the mapped
/// BAR0 window and is 4-byte aligned, so each access stays within the mapping.
pub proof fn lemma_registers_in_window()
    ensures
        register_in_window(CTRL),
        register_in_window(STATUS),
        register_in_window(ICR),
        register_in_window(ITR),
        register_in_window(ICS),
        register_in_window(IMS),
        register_in_window(IMC),
        register_in_window(RCTL),
        register_in_window(RDBAL),
        register_in_window(RDBAH),
        register_in_window(RDLEN),
        register_in_window(RDH),
        register_in_window(RDT),
        register_in_window(RDTR),
{
}

/// Every write of the setup plans goes to a register inside the mapped window.
pub proof fn lemma_setup_writes_in_window(ring_pa: usize)
    ensures
        forall|i: int|
            0 <= i < receiver_setup_plan(ring_pa).len() ==> register_in_window(
                (#[trigger] receiver_setup_plan(ring_pa)[i]).offset,
            ),
        forall|i: int|
            0 <= i < link_status_plan().len() ==> register_in_window(
                (#[trigger] link_status_plan()[i]).offset,
            ),
{
}

/// The receiver is enabled by the last write of the setup and by no earlier
/// one: every RCTL write before it leaves the enable bit clear, and the last
/// sets enable together with unicast and multicast promiscuous mode.
pub proof fn lemma_receiver_enabled_last(ring_pa: usize)
    ensures
        ({
            let plan = receiver_setup_plan(ring_pa);
            &&& plan.len() == 10
            &&& forall|i: int|
                0 <= i < plan.len() - 1 && (#[trigger] plan[i]).offset == RCTL
                    ==> !rctl_enables_receiver(plan[i].value)
            &&& plan.last().offset == RCTL
            &&& rctl_enables_receiver(plan.last().value)
            &&& plan.last().value == RCTL_EN + RCTL_UPE + RCTL_MPE
        }),
{
}

/// The base-address registers of the setup carry the whole ring address:
/// RDBAH times 2^32 plus RDBAL is the ring's physical address.
pub proof fn lemma_ring_base_registers(ring_pa: usize)
    ensures
        receiver_setup_plan(ring_pa)[2].offset == RDBAH,
        receiver_setup_plan(ring_pa)[3].offset == RDBAL,
        receiver_setup_plan(ring_pa)[2].value as nat * 0x1_0000_0000
            + receiver_setup_plan(ring_pa)[3].value as nat == ring_pa as nat,
{
    assert(ring_pa as nat / 0x1_0000_0000 < 0x1_0000_0000) by {
        assert(ring_pa as nat <= 0xffff_ffff_ffff_ffff);
    }
}

/// The ring length programmed into RDLEN is the size of the ring image, and a
/// multiple of 128 bytes as the device requires.
pub proof fn lemma_ring_length(ring_pa: usize)
    ensures
        receiver_setup_plan(ring_pa)[4].offset == RDLEN,
        receiver_setup_plan(ring_pa)[4].value == RX_RING_LEN * RX_DESCRIPTOR_SIZE,
        receiver_setup_plan(ring_pa)[4].value % 128 == 0,
{
}

/// The receive buffers do not overlap, follow one another, and all lie within
/// the one huge page of the buffer region.
pub proof fn lemma_rx_buffers_disjoint(base: usize)
    ensures
        forall|i: int, j: int|
            0 <= i < j < RX_RING_LEN ==> #[trigger] rx_buffer_addr(base, i) + RX_BUFFER_SIZE
                <= #[trigger] rx_buffer_addr(base, j),
        forall|i: int|
            0 <= i < RX_RING_LEN ==> base <= #[trigger] rx_buffer_addr(base, i) && rx_buffer_addr(
                base,
                i,
            ) + RX_BUFFER_SIZE <= base + HUGE_PAGE_SIZE,
{
    assert forall|i: int, j: int|
        0 <= i < j < RX_RING_LEN implies #[trigger] rx_buffer_addr(base, i) + RX_BUFFER_SIZE
        <= #[trigger] rx_buffer_addr(base, j) by {
        assert(i * 2048 + 2048 <= j * 2048) by (nonlinear_arith)
            requires
                i < j,
        ;
    }
    assert forall|i: int| 0 <= i < RX_RING_LEN implies base <= #[trigger] rx_buffer_addr(base, i)
        && rx_buffer_addr(base, i) + RX_BUFFER_SIZE <= base + HUGE_PAGE_SIZE by {
        assert(0 <= i * 2048 <= 7 * 2048) by (nonlinear_arith)
            requires
                0 <= i < 8,
        ;
    }
}

/// The bytes of a descriptor image, field by field: the buffer address in
/// bytes 0 to 7, the length in bytes 8 and 9, the checksum in 10 and 11, the
/// status in byte 12, the errors in byte 13 and the special field in 14 and 15,
/// each least significant byte first.
pub proof fn lemma_descriptor_layout(d: RxDescriptor, b: Seq<u8>)
    requires
        descriptor_image(d, b),
    ensures
        b.len() == 16,
        d.buffer_addr as nat == b[0] as nat + 0x100 * b[1] as nat + 0x1_0000 * b[2] as nat
            + 0x100_0000 * b[3] as nat + 0x1_0000_0000 * b[4] as nat + 0x100_0000_0000
            * b[5] as nat + 0x1_0000_0000_0000 * b[6] as nat + 0x100_0000_0000_0000 * b[7] as nat,
        d.length as nat == b[8] as nat + 256 * b[9] as nat,
        d.checksum as nat == b[10] as nat + 256 * b[11] as nat,
        d.status == b[12],
        d.errors == b[13],
        d.special as nat == b[14] as nat + 256 * b[15] as nat,
{
    reveal_with_fuel(le_value, 9);
    let a = b.subrange(0, 8);
    assert(a.drop_first() == b.subrange(1, 8));
    assert(a.drop_first().drop_first() == b.subrange(2, 8));
    assert(b.subrange(2, 8).drop_first() == b.subrange(3, 8));
    assert(b.subrange(3, 8).drop_first() == b.subrange(4, 8));
    assert(b.subrange(4, 8).drop_first() == b.subrange(5, 8));
    assert(b.subrange(5, 8).drop_first() == b.subrange(6, 8));
    assert(b.subrange(6, 8).drop_first() == b.subrange(7, 8));
    assert(b.subrange(7, 8).drop_first() == Seq::<u8>::empty());
    lemma_le_value_2(b.subrange(8, 10));
    lemma_le_value_2(b.subrange(10, 12));
    lemma_le_value_2(b.subrange(14, 16));
}

/// The descriptor for a buffer carries the buffer's address unchanged, in
/// every image of it: the first eight bytes read back as that address, and all
/// the other bytes are zero.
pub proof fn lemma_descriptor_for_buffer(a: u64, b: Seq<u8>)
    requires
        descriptor_image(RxDescriptor::for_buffer_spec(a), b),
    ensures
        RxDescriptor::for_buffer_spec(a).buffer_addr == a,
        le_value(b.subrange(0, 8)) == a as nat,
        forall|j: int| 8 <= j < 16 ==> b[j] == 0,
{
    lemma_descriptor_layout(RxDescriptor::for_buffer_spec(a), b);
}

/// The receive buffers start at the region's base and follow one another at a
/// stride of exactly one buffer size.
pub proof fn lemma_rx_buffers_consecutive(base: usize)
    ensures
        rx_buffer_addr(base, 0) == base,
        forall|i: int|
            0 <= i < 7 ==> #[trigger] rx_buffer_addr(base, i + 1) == rx_buffer_addr(base, i) + 2048,
        forall|i: int| 0 <= i < 8 ==> #[trigger] rx_buffer_addr(base, i) == base + 2048 * i,
{
    assert forall|i: int| 0 <= i < 7 implies #[trigger] rx_buffer_addr(base, i + 1)
        == rx_buffer_addr(base, i) + 2048 by {
        assert((i + 1) * 2048 == i * 2048 + 2048) by (nonlinear_arith);
    }
    assert forall|i: int| 0 <= i < 8 implies #[trigger] rx_buffer_addr(base, i) == base + 2048
        * i by {
        assert(i * 2048 == 2048 * i) by (nonlinear_arith);
    }
}

/// Only the base-address registers of the receiver setup depend on where the
/// ring lies; every other write is the same for every ring. The ring starts
/// empty for software and full for the device: head 0 and tail 1, one
/// descriptor handed over, both inside the ring of 8. The receive delay timer
/// is 0 and the interrupt mask holds exactly the receiver timer bit (bit 7).
pub proof fn lemma_receiver_plan_fixed_writes(p: usize, q: usize)
    ensures
        receiver_setup_plan(p).len() == receiver_setup_plan(q).len(),
        forall|i: int|
            0 <= i < receiver_setup_plan(p).len() && i != 2 && i != 3 ==> #[trigger] receiver_setup_plan(
                p,
            )[i] == receiver_setup_plan(q)[i],
        receiver_setup_plan(p)[2].offset == receiver_setup_plan(q)[2].offset,
        receiver_setup_plan(p)[3].offset == receiver_setup_plan(q)[3].offset,
        receiver_setup_plan(p)[5] == (RegisterWrite { offset: 0x2810, value: 0 }),
        receiver_setup_plan(p)[6] == (RegisterWrite { offset: 0x2818, value: 1 }),
        receiver_setup_plan(p)[6].value == receiver_setup_plan(p)[5].value + 1,
        receiver_setup_plan(p)[6].value < 8,
        receiver_setup_plan(p)[7] == (RegisterWrite { offset: 0x2820, value: 0 }),
        receiver_setup_plan(p)[8] == (RegisterWrite { offset: 0xd0, value: 0x80 }),
        receiver_setup_plan(p)[0] == (RegisterWrite { offset: 0x100, value: 0 }),
        receiver_setup_plan(p)[4] == (RegisterWrite { offset: 0x2808, value: 128 }),
        receiver_setup_plan(p)[9] == (RegisterWrite { offset: 0x100, value: 0x1a }),
        receiver_setup_plan(p)[1] == (RegisterWrite { offset: 0x100, value: 0x18 }),
{
}

/// The link status setup writes the interrupt mask twice, each time with
/// exactly the link status change bit (bit 2).
pub proof fn lemma_link_status_plan()
    ensures
        link_status_plan().len() == 2,
        forall|i: int|
            0 <= i < 2 ==> #[trigger] link_status_plan()[i] == (RegisterWrite {
                offset: 0xd0,
                value: 4,
            }),
{
}

} // verus!
