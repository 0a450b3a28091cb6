//! PCI configuration space of the UIO device: the standard header fields, the
//! command-register write that re-enables legacy interrupts, and the interrupt
//! counter that the UIO device file hands out.

use vstd::prelude::*;
use crate::le::{le_value, read_le_u16, read_le_u32, le_bytes_u16, lemma_le_value_2, lemma_le_value_4};

verus! {

/// Size in bytes of the configuration space that is read and dumped.
pub const CONFIG_SPACE_SIZE: usize = 256;

/// Byte offset of the command register in the configuration space.
pub const PCI_COMMAND_OFFSET: u64 = 4;

/// The `Interrupt Disable` bit of the PCI command register (bit 10).
pub const COMMAND_INTERRUPT_DISABLE: u16 = 0x0400;

/// The first fields of a PCI configuration header.
#[derive(Clone, Copy, Debug, PartialEq, Eq)]
pub struct PciConfigHeader {
    pub vendor_id: u16,
    pub device_id: u16,
    pub command: u16,
    pub status: u16,
}

/// The little-endian 16-bit word at byte offset `off` of `s`.
pub open spec fn word_at(s: Seq<u8>, off: int) -> u16 {
    le_value(s.subrange(off, off + 2)) as u16
}

/// The header fields that a configuration-space image holds: vendor ID at 0,
/// device ID at 2, command register at 4, status register at 6.
pub open spec fn config_header_of(s: Seq<u8>) -> PciConfigHeader {
    PciConfigHeader {
        vendor_id: word_at(s, 0),
        device_id: word_at(s, 2),
        command: word_at(s, 4),
        status: word_at(s, 6),
    }
}

/// Reads the little-endian 16-bit word at byte offset `off` of `buf`.
pub fn read_u16(buf: &[u8], off: usize) -> (r: u16)
    requires
        off + 2 <= buf@.len(),
    ensures
        r == word_at(buf@, off as int),
        r as nat == le_value(buf@.subrange(off as int, off + 2)),
{
    let (_, tail) = buf.split_at(off);
    assert(tail@.take(2) == buf@.subrange(off as int, off + 2));
    read_le_u16(tail)
}

/// Decodes vendor ID, device ID, command and status register from the
/// beginning of a configuration-space image.
pub fn parse_config_header(buf: &[u8]) -> (h: PciConfigHeader)
    requires
        buf@.len() >= 8,
    ensures
        h == config_header_of(buf@),
{
    PciConfigHeader {
        vendor_id: read_u16(buf, 0),
        device_id: read_u16(buf, 2),
        command: read_u16(buf, 4),
        status: read_u16(buf, 6),
    }
}

/// The command-register value written before waiting for interrupts: every
/// bit set except `Interrupt Disable`.
pub fn interrupt_enable_command() -> (c: u16)
    ensures
        c == !COMMAND_INTERRUPT_DISABLE,
        c == 0xfbff,
        c & COMMAND_INTERRUPT_DISABLE == 0,
{
    let c: u16 = !COMMAND_INTERRUPT_DISABLE;
    assert(c == 0xfbff && c & 0x0400u16 == 0) by (bit_vector)
        requires
            c == !0x0400u16,
    ;
    c
}

/// A write of raw bytes into the configuration space.
#[derive(Clone, Copy, Debug, PartialEq, Eq)]
pub struct ConfigWrite {
    pub offset: u64,
    pub bytes: [u8; 2],
}

/// The configuration-space write that re-enables interrupts: the interrupt
/// enable command, little-endian, at the command register.
pub fn reenable_interrupts_write() -> (w: ConfigWrite)
    ensures
        w.offset == PCI_COMMAND_OFFSET,
        le_value(w.bytes@) == 0xfbff,
        w.bytes@ == seq![0xffu8, 0xfbu8],
{
    let command = interrupt_enable_command();
    let bytes = le_bytes_u16(command);
    proof {
        lemma_le_value_2(bytes@);
    }
    ConfigWrite { offset: PCI_COMMAND_OFFSET, bytes }
}

/// The interrupt counter read from the UIO device file: four bytes,
/// little-endian.
pub fn interrupt_count(buf: &[u8; 4]) -> (n: u32)
    ensures
        n as nat == le_value(buf@),
        n as nat == buf[0] as nat + 0x100 * buf[1] as nat + 0x1_0000 * buf[2] as nat + 0x100_0000
            * buf[3] as nat,
{
    proof {
        lemma_le_value_4(buf@);
    }
    let s: &[u8] = buf.as_slice();
    assert(s@.take(4) == buf@);
    read_le_u32(s)
}

/// One line of a configuration-space dump: its byte offset and four bytes.
#[derive(Clone, Copy, Debug, PartialEq, Eq)]
pub struct ConfigRow {
    pub offset: usize,
    pub bytes: [u8; 4],
}

/// The rows of the configuration-space dump: the first 128 bytes of the image
/// in 32 rows of four bytes, in order.
pub fn config_space_rows(buf: &[u8; 256]) -> (rows: Vec<ConfigRow>)
    ensures
        rows@.len() == 32,
        forall|i: int|
            0 <= i < 32 ==> (#[trigger] rows@[i]).offset == 4 * i && rows@[i].bytes@
                == buf@.subrange(4 * i, 4 * i + 4),
        forall|k: int| 0 <= k < 128 ==> rows@[k / 4].bytes@[k % 4] == buf@[k],
{
    let mut rows: Vec<ConfigRow> = Vec::new();
    let mut i: usize = 0;
    while i < 32
        invariant
            i <= 32,
            buf@.len() == 256,
            rows@.len() == i,
            forall|r: int|
                0 <= r < i ==> (#[trigger] rows@[r]).offset == 4 * r && rows@[r].bytes@
                    == buf@.subrange(4 * r, 4 * r + 4),
        decreases 32 - i,
    {
        let ii: usize = i * 4;
        let bytes: [u8; 4] = [buf[ii], buf[ii + 1], buf[ii + 2], buf[ii + 3]];
        assert(bytes@ == buf@.subrange(ii as int, ii + 4));
        rows.push(ConfigRow { offset: ii, bytes });
        i = i + 1;
    }
    assert forall|k: int| 0 <= k < 128 implies rows@[k / 4].bytes@[k % 4] == buf@[k] by {
        let r = k / 4;
        assert(0 <= r < 32);
        assert(rows@[r].bytes@ == buf@.subrange(4 * r, 4 * r + 4));
        assert(4 * r + k % 4 == k);
    }
    rows
}

/// Writing the interrupt-enable command into a configuration-space image and
/// reading the header back gives that command in the command register, and
/// leaves vendor ID, device ID and status as they were.
pub proof fn lemma_command_write_reads_back(image: Seq<u8>, w: ConfigWrite)
    requires
        image.len() == CONFIG_SPACE_SIZE,
        w.offset == PCI_COMMAND_OFFSET,
        le_value(w.bytes@) == 0xfbff,
    ensures
        ({
            let written = image.take(4) + w.bytes@ + image.skip(6);
            &&& written.len() == image.len()
            &&& config_header_of(written).command == 0xfbff
            &&& config_header_of(written).vendor_id == config_header_of(image).vendor_id
            &&& config_header_of(written).device_id == config_header_of(image).device_id
            &&& config_header_of(written).status == config_header_of(image).status
        }),
{
    let written = image.take(4) + w.bytes@ + image.skip(6);
    assert(written.subrange(4, 6) == w.bytes@);
    assert(written.subrange(0, 2) == image.subrange(0, 2));
    assert(written.subrange(2, 4) == image.subrange(2, 4));
    assert(written.subrange(6, 8) == image.subrange(6, 8));
}

/// The header fields are the words at bytes 0, 2, 4 and 6 of the image, each
/// least significant byte first: vendor ID, device ID, command, status.
pub proof fn lemma_header_fields(s: Seq<u8>)
    requires
        s.len() >= 8,
    ensures
        config_header_of(s).vendor_id as nat == s[0] as nat + 256 * s[1] as nat,
        config_header_of(s).device_id as nat == s[2] as nat + 256 * s[3] as nat,
        config_header_of(s).command as nat == s[4] as nat + 256 * s[5] as nat,
        config_header_of(s).status as nat == s[6] as nat + 256 * s[7] as nat,
{
    lemma_le_value_2(s.subrange(0, 2));
    lemma_le_value_2(s.subrange(2, 4));
    lemma_le_value_2(s.subrange(4, 6));
    lemma_le_value_2(s.subrange(6, 8));
}

} // verus!
