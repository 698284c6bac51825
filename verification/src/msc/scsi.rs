//! SCSI command blocks and response parsing (SPC-4 / SBC-3), limited to what
//! USB mass-storage devices implement.

use crate::bytes::{self, be16_bytes, be32_at, be32_bytes, be64_at, be64_bytes, byte, byte_at};
use crate::error::ErrorKind;
use crate::text;
use vstd::prelude::*;
use vstd::slice::slice_subrange;
use vstd::string::*;

pub mod opcode;

verus! {

/// Standard INQUIRY data (the first 36 bytes).
#[derive(Debug, Clone, PartialEq, Eq)]
pub struct Inquiry {
    /// Peripheral device type (0 = direct access block device, 5 = CD/DVD).
    pub device_type: u8,
    /// Removable medium bit.
    pub removable: bool,
    /// Claimed SPC version.
    pub version: u8,
    /// T10 vendor identification, trimmed.
    pub vendor: String,
    /// Product identification, trimmed.
    pub product: String,
    /// Product revision level, trimmed.
    pub revision: String,
}

/// What an [`Inquiry`] holds.
#[verifier::ext_equal]
pub struct InquiryView {
    pub device_type: u8,
    pub removable: bool,
    pub version: u8,
    pub vendor: Seq<char>,
    pub product: Seq<char>,
    pub revision: Seq<char>,
}

impl View for Inquiry {
    type V = InquiryView;

    open spec fn view(&self) -> InquiryView {
        InquiryView {
            device_type: self.device_type,
            removable: self.removable,
            version: self.version,
            vendor: self.vendor@,
            product: self.product@,
            revision: self.revision@,
        }
    }
}

/// The text that `String::from_utf8_lossy` makes of bytes.
pub uninterp spec fn utf8_lossy(b: Seq<u8>) -> Seq<char>;

/// Whether bytes are all ASCII.
pub open spec fn ascii(b: Seq<u8>) -> bool {
    forall|i: int| 0 <= i < b.len() ==> #[trigger] b[i] < 0x80
}

/// The text that ASCII bytes are.
pub open spec fn ascii_text(b: Seq<u8>) -> Seq<char> {
    Seq::new(b.len(), |i: int| b[i] as char)
}

/// Decodes text with `String::from_utf8_lossy`, which depends on the bytes
/// alone and keeps valid UTF-8 as it is, ASCII above all. What it makes of
/// other bytes is named, not spelt out.
#[verifier::external_body]
fn from_utf8_lossy(b: &[u8]) -> (r: String)
    ensures
        r@ == utf8_lossy(b@),
        ascii(b@) ==> r@ == ascii_text(b@),
{
    String::from_utf8_lossy(b).into_owned()
}

/// Whether a character pads an identification field.
pub open spec fn is_padding(c: char) -> bool {
    c == ' ' || c == '\0'
}

/// Text without the padding before it.
pub open spec fn trim_start(s: Seq<char>) -> Seq<char>
    decreases s.len(),
{
    if s.len() > 0 && is_padding(s[0]) {
        trim_start(s.skip(1))
    } else {
        s
    }
}

/// Text without the padding after it.
pub open spec fn trim_end(s: Seq<char>) -> Seq<char>
    decreases s.len(),
{
    if s.len() > 0 && is_padding(s.last()) {
        trim_end(s.drop_last())
    } else {
        s
    }
}

/// Text without the padding around it.
pub open spec fn trimmed(s: Seq<char>) -> Seq<char> {
    trim_end(trim_start(s))
}

/// Removes the padding around an identification field.
pub fn trim_padding(s: &str) -> (r: String)
    ensures
        r@ == trimmed(s@),
{
    let n: usize = s.unicode_len();
    let mut from: usize = 0;
    assert(s@.skip(0) =~= s@);
    while from < n && (s.get_char(from) == ' ' || s.get_char(from) == '\0')
        invariant
            from <= n,
            n == s@.len(),
            trim_start(s@) == trim_start(s@.skip(from as int)),
        decreases n - from,
    {
        assert(s@.skip(from as int)[0] == s@[from as int]);
        assert(s@.skip(from as int).skip(1) =~= s@.skip(from + 1));
        from += 1;
    }
    assert(trim_start(s@) =~= s@.skip(from as int)) by {
        if from < n {
            assert(s@.skip(from as int)[0] == s@[from as int]);
        }
    }
    let mut to: usize = n;
    assert(s@.subrange(from as int, n as int) =~= s@.skip(from as int));
    while to > from && (s.get_char(to - 1) == ' ' || s.get_char(to - 1) == '\0')
        invariant
            from <= to <= n,
            n == s@.len(),
            trim_end(s@.skip(from as int)) == trim_end(s@.subrange(from as int, to as int)),
        decreases to,
    {
        let ghost t = s@.subrange(from as int, to as int);
        assert(t.last() == s@[to - 1]);
        assert(t.drop_last() =~= s@.subrange(from as int, to - 1));
        to -= 1;
    }
    proof {
        let t = s@.subrange(from as int, to as int);
        if to > from {
            assert(t.last() == s@[to - 1]);
        }
    }
    String::from_str(s.substring_char(from, to))
}

/// The bytes of `b` from `from` up to `to`, as far as they exist.
pub open spec fn clipped(b: Seq<u8>, from: int, to: int) -> Seq<u8> {
    if from <= b.len() {
        b.subrange(from, if to < b.len() { to } else { b.len() as int })
    } else {
        Seq::empty()
    }
}

/// The identification text in a range of INQUIRY data.
pub open spec fn inquiry_text(b: Seq<u8>, from: int, to: int) -> Seq<char> {
    trimmed(utf8_lossy(clipped(b, from, to)))
}

/// The INQUIRY data in `b`.
pub open spec fn inquiry_of(b: Seq<u8>) -> InquiryView {
    InquiryView {
        device_type: b[0] % 32,
        removable: b[1] >= 0x80,
        version: b[2],
        vendor: inquiry_text(b, 8, 16),
        product: inquiry_text(b, 16, 32),
        revision: inquiry_text(b, 32, 36),
    }
}

fn field_text(b: &[u8], from: usize, to: usize) -> (r: String)
    requires
        from <= to,
    ensures
        r@ == inquiry_text(b@, from as int, to as int),
        ascii(clipped(b@, from as int, to as int)) ==> r@ == trimmed(ascii_text(clipped(b@, from as int, to as int))),
{
    let part = if from <= b.len() {
        let end: usize = if to < b.len() { to } else { b.len() };
        slice_subrange(b, from, end)
    } else {
        slice_subrange(b, 0, 0)
    };
    assert(part@ =~= clipped(b@, from as int, to as int));
    let text = from_utf8_lossy(part);
    trim_padding(text.as_str())
}

impl Inquiry {
    /// Parses standard INQUIRY data. Missing trailing bytes read as spaces.
    pub fn from_bytes(b: &[u8]) -> (r: Option<Inquiry>)
        ensures
            b@.len() < 5 ==> r is None,
            b@.len() >= 5 ==> r is Some && r->0@ == inquiry_of(b@),
            b@.len() >= 5 && ascii(clipped(b@, 8, 16)) ==> r->0@.vendor == trimmed(ascii_text(clipped(b@, 8, 16))),
            b@.len() >= 5 && ascii(clipped(b@, 16, 32)) ==> r->0@.product == trimmed(ascii_text(clipped(b@, 16, 32))),
            b@.len() >= 5 && ascii(clipped(b@, 32, 36)) ==> r->0@.revision == trimmed(ascii_text(clipped(b@, 32, 36))),
    {
        if b.len() < 5 {
            return None;
        }
        Some(
            Inquiry {
                device_type: b[0] % 32,
                removable: b[1] >= 0x80,
                version: b[2],
                vendor: field_text(b, 8, 16),
                product: field_text(b, 16, 32),
                revision: field_text(b, 32, 36),
            },
        )
    }
}

/// The size of a logical unit, from READ CAPACITY.
#[derive(Debug, Clone, Copy, PartialEq, Eq, Hash, Structural)]
pub struct Capacity {
    /// Number of logical blocks.
    pub block_count: u64,
    /// Size of each block in bytes (almost always 512 or 4096; 2048 for
    /// optical media).
    pub block_size: u32,
}

/// The size in bytes of a logical unit.
pub open spec fn capacity_bytes(c: Capacity) -> int {
    c.block_count * c.block_size
}

impl Capacity {
    /// Total size in bytes.
    pub fn bytes(&self) -> (r: u64)
        requires
            capacity_bytes(*self) <= u64::MAX,
        ensures
            r == capacity_bytes(*self),
    {
        assert(self.block_count * self.block_size >= 0) by (nonlinear_arith)
            requires
                self.block_count >= 0,
                self.block_size >= 0,
        ;
        self.block_count * self.block_size as u64
    }
}

/// SCSI sense key (SPC-4 §4.5.6).
#[derive(Debug, Clone, Copy, PartialEq, Eq, Hash, Structural)]
pub enum SenseKey {
    /// No error.
    NoSense,
    /// The command succeeded after recovery.
    RecoveredError,
    /// The unit cannot be accessed right now (spinning up, no medium, ...).
    NotReady,
    /// Unrecoverable medium error.
    MediumError,
    /// Hardware failure.
    HardwareError,
    /// Bad command or parameter.
    IllegalRequest,
    /// The medium changed or the device was reset; retry the command.
    UnitAttention,
    /// Write-protected.
    DataProtect,
    /// Blank or unwritten medium.
    BlankCheck,
    /// Vendor-specific.
    VendorSpecific,
    /// Copy aborted.
    CopyAborted,
    /// The device aborted the command.
    AbortedCommand,
    /// The command reached the end of the medium.
    VolumeOverflow,
    /// Source data did not match the medium.
    Miscompare,
    /// Other values.
    Reserved(u8),
}

/// The sense key of a 4-bit code.
pub open spec fn sense_key_of(key: u8) -> SenseKey {
    let k = key % 16;
    if k == 0x0 { SenseKey::NoSense }
    else if k == 0x1 { SenseKey::RecoveredError }
    else if k == 0x2 { SenseKey::NotReady }
    else if k == 0x3 { SenseKey::MediumError }
    else if k == 0x4 { SenseKey::HardwareError }
    else if k == 0x5 { SenseKey::IllegalRequest }
    else if k == 0x6 { SenseKey::UnitAttention }
    else if k == 0x7 { SenseKey::DataProtect }
    else if k == 0x8 { SenseKey::BlankCheck }
    else if k == 0x9 { SenseKey::VendorSpecific }
    else if k == 0xa { SenseKey::CopyAborted }
    else if k == 0xb { SenseKey::AbortedCommand }
    else if k == 0xd { SenseKey::VolumeOverflow }
    else if k == 0xe { SenseKey::Miscompare }
    else { SenseKey::Reserved(k) }
}

/// The name of a sense key.
pub open spec fn sense_key_text(key: SenseKey) -> Seq<char> {
    match key {
        SenseKey::NoSense => "NoSense"@,
        SenseKey::RecoveredError => "RecoveredError"@,
        SenseKey::NotReady => "NotReady"@,
        SenseKey::MediumError => "MediumError"@,
        SenseKey::HardwareError => "HardwareError"@,
        SenseKey::IllegalRequest => "IllegalRequest"@,
        SenseKey::UnitAttention => "UnitAttention"@,
        SenseKey::DataProtect => "DataProtect"@,
        SenseKey::BlankCheck => "BlankCheck"@,
        SenseKey::VendorSpecific => "VendorSpecific"@,
        SenseKey::CopyAborted => "CopyAborted"@,
        SenseKey::AbortedCommand => "AbortedCommand"@,
        SenseKey::VolumeOverflow => "VolumeOverflow"@,
        SenseKey::Miscompare => "Miscompare"@,
        SenseKey::Reserved(k) => "Reserved("@ + text::decimal(k as nat) + ")"@,
    }
}

impl SenseKey {
    /// Decodes a 4-bit sense key.
    pub fn from_code(key: u8) -> (r: SenseKey)
        ensures
            r == sense_key_of(key),
    {
        match key % 16 {
            0x0 => SenseKey::NoSense,
            0x1 => SenseKey::RecoveredError,
            0x2 => SenseKey::NotReady,
            0x3 => SenseKey::MediumError,
            0x4 => SenseKey::HardwareError,
            0x5 => SenseKey::IllegalRequest,
            0x6 => SenseKey::UnitAttention,
            0x7 => SenseKey::DataProtect,
            0x8 => SenseKey::BlankCheck,
            0x9 => SenseKey::VendorSpecific,
            0xa => SenseKey::CopyAborted,
            0xb => SenseKey::AbortedCommand,
            0xd => SenseKey::VolumeOverflow,
            0xe => SenseKey::Miscompare,
            k => SenseKey::Reserved(k),
        }
    }

    /// Appends the key's name.
    fn push_name(self, out: &mut String)
        ensures
            final(out)@ == old(out)@ + sense_key_text(self),
    {
        match self {
            SenseKey::NoSense => out.append("NoSense"),
            SenseKey::RecoveredError => out.append("RecoveredError"),
            SenseKey::NotReady => out.append("NotReady"),
            SenseKey::MediumError => out.append("MediumError"),
            SenseKey::HardwareError => out.append("HardwareError"),
            SenseKey::IllegalRequest => out.append("IllegalRequest"),
            SenseKey::UnitAttention => out.append("UnitAttention"),
            SenseKey::DataProtect => out.append("DataProtect"),
            SenseKey::BlankCheck => out.append("BlankCheck"),
            SenseKey::VendorSpecific => out.append("VendorSpecific"),
            SenseKey::CopyAborted => out.append("CopyAborted"),
            SenseKey::AbortedCommand => out.append("AbortedCommand"),
            SenseKey::VolumeOverflow => out.append("VolumeOverflow"),
            SenseKey::Miscompare => out.append("Miscompare"),
            SenseKey::Reserved(k) => {
                out.append("Reserved(");
                text::push_decimal(out, k as u64);
                out.append(")");
                assert(final(out)@ =~= old(out)@ + sense_key_text(self));
            },
        }
    }
}

/// Sense data returned by REQUEST SENSE after a failed command.
#[derive(Debug, Clone, Copy, PartialEq, Eq, Hash, Structural)]
pub struct Sense {
    /// The sense key: the broad category of the failure.
    pub key: SenseKey,
    /// Additional sense code.
    pub asc: u8,
    /// Additional sense code qualifier.
    pub ascq: u8,
}

/// The sense data in `b`: fixed format (0x70/0x71) or descriptor format
/// (0x72/0x73).
pub open spec fn sense_of(b: Seq<u8>) -> Option<Sense> {
    if b.len() == 0 {
        None
    } else if b[0] % 128 == 0x70 || b[0] % 128 == 0x71 {
        if b.len() > 2 {
            Some(Sense { key: sense_key_of(b[2]), asc: byte_at(b, 12), ascq: byte_at(b, 13) })
        } else {
            None
        }
    } else if b[0] % 128 == 0x72 || b[0] % 128 == 0x73 {
        if b.len() > 1 {
            Some(Sense { key: sense_key_of(b[1]), asc: byte_at(b, 2), ascq: byte_at(b, 3) })
        } else {
            None
        }
    } else {
        None
    }
}

/// The error kind that describes a failure.
pub open spec fn sense_error(s: Sense) -> ErrorKind {
    match s.key {
        SenseKey::NotReady => if s.asc == 0x3a {
            ErrorKind::NotFound
        } else {
            ErrorKind::Busy
        },
        SenseKey::IllegalRequest => ErrorKind::NotSupported,
        SenseKey::DataProtect => ErrorKind::Access,
        SenseKey::VolumeOverflow => ErrorKind::InvalidParam,
        _ => ErrorKind::Io,
    }
}

/// How sense data is shown.
pub open spec fn sense_text(s: Sense) -> Seq<char> {
    sense_key_text(s.key) + " (ASC 0x"@ + text::hex2(s.asc) + ", ASCQ 0x"@ + text::hex2(s.ascq) + ")"@
}

impl Sense {
    /// Parses fixed-format (0x70/0x71) or descriptor-format (0x72/0x73)
    /// sense data.
    pub fn from_bytes(b: &[u8]) -> (r: Option<Sense>)
        ensures
            r == sense_of(b@),
    {
        if b.len() == 0 {
            return None;
        }
        match b[0] % 128 {
            0x70 | 0x71 => if b.len() > 2 {
                Some(Sense { key: SenseKey::from_code(b[2]), asc: byte(b, 12), ascq: byte(b, 13) })
            } else {
                None
            },
            0x72 | 0x73 => if b.len() > 1 {
                Some(Sense { key: SenseKey::from_code(b[1]), asc: byte(b, 2), ascq: byte(b, 3) })
            } else {
                None
            },
            _ => None,
        }
    }

    /// `true` for "medium not present" (ASC 0x3A): an empty card reader slot
    /// or optical drive.
    pub fn medium_not_present(&self) -> (r: bool)
        ensures
            r == (self.asc == 0x3a),
    {
        self.asc == 0x3a
    }

    /// The crate error kind that best describes this failure.
    pub fn error_kind(&self) -> (r: ErrorKind)
        ensures
            r == sense_error(*self),
    {
        match self.key {
            SenseKey::NotReady => if self.medium_not_present() {
                ErrorKind::NotFound
            } else {
                ErrorKind::Busy
            },
            SenseKey::IllegalRequest => ErrorKind::NotSupported,
            SenseKey::DataProtect => ErrorKind::Access,
            SenseKey::VolumeOverflow => ErrorKind::InvalidParam,
            _ => ErrorKind::Io,
        }
    }

    /// Appends the sense data as text.
    pub fn push_text(&self, out: &mut String)
        ensures
            final(out)@ == old(out)@ + sense_text(*self),
    {
        self.key.push_name(out);
        out.append(" (ASC 0x");
        text::push_hex2(out, self.asc);
        out.append(", ASCQ 0x");
        text::push_hex2(out, self.ascq);
        out.append(")");
        assert(final(out)@ =~= old(out)@ + sense_text(*self));
    }

    /// The sense data as text.
    pub fn to_text(&self) -> (r: String)
        ensures
            r@ == sense_text(*self),
    {
        let mut out = String::new();
        self.push_text(&mut out);
        assert(out@ =~= sense_text(*self));
        out
    }
}

/// Whether READ (10) or WRITE (10) can address these blocks.
pub open spec fn fits_ten(lba: u64, blocks: u32) -> bool {
    lba + blocks <= 0x1_0000_0000 && blocks <= 0xffff
}

/// The command block of a READ or WRITE.
pub open spec fn rw_bytes(write: bool, lba: u64, blocks: u32) -> Seq<u8> {
    if fits_ten(lba, blocks) {
        seq![
            if write { opcode::WRITE_10 } else { opcode::READ_10 },
            0u8,
        ] + be32_bytes(lba as u32) + seq![0u8] + be16_bytes(blocks as u16) + seq![0u8]
    } else {
        seq![
            if write { opcode::WRITE_16 } else { opcode::READ_16 },
            0u8,
        ] + be64_bytes(lba) + be32_bytes(blocks) + seq![0u8, 0u8]
    }
}

/// The block address that a READ or WRITE command block names.
pub open spec fn rw_lba(cdb: Seq<u8>) -> int {
    if cdb.len() == 10 {
        be32_at(cdb, 2) as int
    } else {
        be64_at(cdb, 2) as int
    }
}

/// The block count that a READ or WRITE command block names.
pub open spec fn rw_count(cdb: Seq<u8>) -> int {
    if cdb.len() == 10 {
        256 * cdb[7] + cdb[8]
    } else {
        be32_at(cdb, 10) as int
    }
}

/// Builds a READ or WRITE CDB, choosing the 10- or 16-byte form. Returns the
/// CDB and its length; the bytes past it are zero.
pub fn rw_cdb(write: bool, lba: u64, blocks: u32) -> (r: ([u8; 16], usize))
    requires
        lba + blocks <= u64::MAX,
    ensures
        r.1 == rw_bytes(write, lba, blocks).len(),
        r.1 == 10 || r.1 == 16,
        r.0@.take(r.1 as int) == rw_bytes(write, lba, blocks),
        forall|i: int| r.1 <= i < 16 ==> r.0@[i] == 0,
{
    if lba + blocks as u64 <= 0x1_0000_0000 && blocks <= 0xffff {
        // Block 2^32 itself is only reachable with a count of zero, and
        // wraps to zero.
        let low: u32 = (lba % 0x1_0000_0000) as u32;
        let op: u8 = if write { opcode::WRITE_10 } else { opcode::READ_10 };
        let cdb: [u8; 16] = [
            op,
            0,
            (low / 16777216) as u8,
            (low / 65536 % 256) as u8,
            (low / 256 % 256) as u8,
            (low % 256) as u8,
            0,
            (blocks / 256) as u8,
            (blocks % 256) as u8,
            0,
            0,
            0,
            0,
            0,
            0,
            0,
        ];
        proof {
            assert(lba as u32 == lba % 0x1_0000_0000) by (bit_vector);
            assert(cdb@.take(10) =~= rw_bytes(write, lba, blocks));
        }
        (cdb, 10)
    } else {
        let high: u32 = (lba / 0x1_0000_0000) as u32;
        let low: u32 = (lba % 0x1_0000_0000) as u32;
        let op: u8 = if write { opcode::WRITE_16 } else { opcode::READ_16 };
        let cdb: [u8; 16] = [
            op,
            0,
            (high / 16777216) as u8,
            (high / 65536 % 256) as u8,
            (high / 256 % 256) as u8,
            (high % 256) as u8,
            (low / 16777216) as u8,
            (low / 65536 % 256) as u8,
            (low / 256 % 256) as u8,
            (low % 256) as u8,
            (blocks / 16777216) as u8,
            (blocks / 65536 % 256) as u8,
            (blocks / 256 % 256) as u8,
            (blocks % 256) as u8,
            0,
            0,
        ];
        assert(cdb@.take(16) =~= rw_bytes(write, lba, blocks));
        (cdb, 16)
    }
}

/// A READ or WRITE command block names the blocks it was built for, whichever
/// form is chosen. (The address 2^32 with no blocks does not fit its field.)
pub proof fn lemma_rw_names_blocks(write: bool, lba: u64, blocks: u32)
    requires
        lba + blocks <= u64::MAX,
        !(lba == 0x1_0000_0000 && blocks == 0),
    ensures
        rw_lba(rw_bytes(write, lba, blocks)) == lba,
        rw_count(rw_bytes(write, lba, blocks)) == blocks,
{
    let cdb = rw_bytes(write, lba, blocks);
    if fits_ten(lba, blocks) {
        assert(cdb.subrange(2, 6) =~= be32_bytes(lba as u32));
        bytes::lemma_be32_round_trip(lba as u32, cdb, 2);
        let c = blocks as u16;
        assert(cdb[7] == (c / 256) as u8 && cdb[8] == (c % 256) as u8);
    } else {
        let h = (lba / 0x1_0000_0000) as u32;
        let l = (lba % 0x1_0000_0000) as u32;
        assert(cdb.subrange(2, 6) =~= be32_bytes(h));
        assert(cdb.subrange(6, 10) =~= be32_bytes(l));
        assert(cdb.subrange(10, 14) =~= be32_bytes(blocks));
        bytes::lemma_be32_round_trip(h, cdb, 2);
        bytes::lemma_be32_round_trip(l, cdb, 6);
        bytes::lemma_be32_round_trip(blocks, cdb, 10);
    }
}

/// A command block says whether it reads or writes: the operation code is 0x28
/// or 0x88 exactly if it reads and 0x2a or 0x8a exactly if it writes, the
/// shorter form being taken where address and count fit into it. Nothing else
/// depends on the direction.
pub proof fn lemma_rw_direction(write: bool, lba: u64, blocks: u32)
    ensures
        ({
            let c = rw_bytes(write, lba, blocks);
            &&& c.len() == 10 <==> lba + blocks <= 0x1_0000_0000 && blocks <= 0xffff
            &&& c.len() == 10 || c.len() == 16
            &&& c.len() == 10 ==> (c[0] == 0x28 <==> !write) && (c[0] == 0x2a <==> write)
            &&& c.len() == 16 ==> (c[0] == 0x88 <==> !write) && (c[0] == 0x8a <==> write)
            &&& c.skip(1) == rw_bytes(!write, lba, blocks).skip(1)
        }),
{
    assert(rw_bytes(write, lba, blocks).skip(1) =~= rw_bytes(!write, lba, blocks).skip(1));
}

/// The shorter command block holds the address in bytes 2 to 5 and the count
/// in bytes 7 and 8, most significant byte first; its other bytes are zero.
pub proof fn lemma_rw_short_layout(write: bool, lba: u64, blocks: u32)
    requires
        rw_bytes(write, lba, blocks).len() == 10,
        lba < 0x1_0000_0000,
    ensures
        ({
            let c = rw_bytes(write, lba, blocks);
            &&& 0x100_0000 * c[2] + 0x1_0000 * c[3] + 0x100 * c[4] + c[5] == lba
            &&& 0x100 * c[7] + c[8] == blocks
            &&& c[1] == 0 && c[6] == 0 && c[9] == 0
        }),
{
    let c = rw_bytes(write, lba, blocks);
    let a = be32_bytes(lba as u32);
    let n = be16_bytes(blocks as u16);
    assert(c[2] == a[0] && c[3] == a[1] && c[4] == a[2] && c[5] == a[3]);
    assert(c[7] == n[0] && c[8] == n[1]);
    crate::bytes::lemma_written_byte_order(blocks as u16, lba as u32, 0);
}

/// The longer command block holds the address in bytes 2 to 9 and the count in
/// bytes 10 to 13, most significant byte first; its other bytes are zero.
pub proof fn lemma_rw_long_layout(write: bool, lba: u64, blocks: u32)
    requires
        rw_bytes(write, lba, blocks).len() == 16,
    ensures
        ({
            let c = rw_bytes(write, lba, blocks);
            &&& c.subrange(2, 10) == be64_bytes(lba)
            &&& 0x100_0000 * c[10] + 0x1_0000 * c[11] + 0x100 * c[12] + c[13] == blocks
            &&& c[1] == 0 && c[14] == 0 && c[15] == 0
        }),
{
    let c = rw_bytes(write, lba, blocks);
    let n = be32_bytes(blocks);
    assert(c.subrange(2, 10) =~= be64_bytes(lba));
    assert(c[10] == n[0] && c[11] == n[1] && c[12] == n[2] && c[13] == n[3]);
    crate::bytes::lemma_written_byte_order(0, blocks, 0);
}

/// Sense data of the fixed format has its key in byte 2 and the additional
/// codes in bytes 12 and 13, that of the descriptor format in bytes 1, 2 and
/// 3; there is no other format.
pub proof fn lemma_sense_layout(b: Seq<u8>)
    ensures
        b.len() >= 14 && (b[0] % 0x80 == 0x70 || b[0] % 0x80 == 0x71) ==> sense_of(b) == Some(
            Sense { key: sense_key_of(b[2]), asc: b[12], ascq: b[13] },
        ),
        b.len() >= 4 && (b[0] % 0x80 == 0x72 || b[0] % 0x80 == 0x73) ==> sense_of(b) == Some(
            Sense { key: sense_key_of(b[1]), asc: b[2], ascq: b[3] },
        ),
        b.len() == 0 ==> sense_of(b) is None,
        b.len() > 0 && !(0x70 <= b[0] % 0x80 <= 0x73) ==> sense_of(b) is None,
{
}

/// The sense key is in the four lowest bits, and each key has its number.
pub proof fn lemma_sense_keys(high: u8, key: u8)
    requires
        high < 16,
        key < 16,
    ensures
        ({
            let k = sense_key_of((16 * high + key) as u8);
            &&& k == sense_key_of(key)
            &&& k == SenseKey::NoSense <==> key == 0
            &&& k == SenseKey::RecoveredError <==> key == 1
            &&& k == SenseKey::NotReady <==> key == 2
            &&& k == SenseKey::MediumError <==> key == 3
            &&& k == SenseKey::HardwareError <==> key == 4
            &&& k == SenseKey::IllegalRequest <==> key == 5
            &&& k == SenseKey::UnitAttention <==> key == 6
            &&& k == SenseKey::DataProtect <==> key == 7
            &&& k == SenseKey::BlankCheck <==> key == 8
            &&& k == SenseKey::VendorSpecific <==> key == 9
            &&& k == SenseKey::CopyAborted <==> key == 10
            &&& k == SenseKey::AbortedCommand <==> key == 11
            &&& k == SenseKey::Reserved(12) <==> key == 12
            &&& k == SenseKey::VolumeOverflow <==> key == 13
            &&& k == SenseKey::Miscompare <==> key == 14
            &&& k == SenseKey::Reserved(15) <==> key == 15
        }),
{
}

/// What each kind of failure is reported as. A unit that is not ready is
/// missing its medium where the additional code says so, and busy otherwise.
pub proof fn lemma_sense_errors(key: SenseKey, asc: u8, ascq: u8)
    ensures
        ({
            let e = sense_error(Sense { key, asc, ascq });
            &&& e == ErrorKind::NotFound <==> key == SenseKey::NotReady && asc == 0x3a
            &&& e == ErrorKind::Busy <==> key == SenseKey::NotReady && asc != 0x3a
            &&& e == ErrorKind::NotSupported <==> key == SenseKey::IllegalRequest
            &&& e == ErrorKind::Access <==> key == SenseKey::DataProtect
            &&& e == ErrorKind::InvalidParam <==> key == SenseKey::VolumeOverflow
            &&& e == ErrorKind::Io <==> !(key == SenseKey::NotReady || key == SenseKey::IllegalRequest || key
                == SenseKey::DataProtect || key == SenseKey::VolumeOverflow)
        }),
{
}

/// Spaces and zeros are taken off both ends of a text, and nothing else.
pub proof fn lemma_trimmed(pad: Seq<char>, s: Seq<char>, more: Seq<char>)
    requires
        forall|i: int| 0 <= i < pad.len() ==> #[trigger] pad[i] == ' ' || pad[i] == '\0',
        forall|i: int| 0 <= i < more.len() ==> #[trigger] more[i] == ' ' || more[i] == '\0',
        s.len() > 0,
        s[0] != ' ' && s[0] != '\0',
        s.last() != ' ' && s.last() != '\0',
    ensures
        trimmed(pad + s + more) == s,
        trimmed(pad).len() == 0,
{
    lemma_trims_start(pad, s + more);
    assert(pad + s + more =~= pad + (s + more));
    lemma_trims_end(s, more);
    lemma_trims_start(pad, Seq::empty());
    assert(pad + Seq::<char>::empty() =~= pad);
}

proof fn lemma_trims_start(pad: Seq<char>, s: Seq<char>)
    requires
        forall|i: int| 0 <= i < pad.len() ==> #[trigger] pad[i] == ' ' || pad[i] == '\0',
        s.len() > 0 ==> s[0] != ' ' && s[0] != '\0',
    ensures
        trim_start(pad + s) == s,
    decreases pad.len(),
{
    if pad.len() == 0 {
        assert(pad + s =~= s);
    } else {
        assert((pad + s)[0] == pad[0]);
        assert((pad + s).skip(1) =~= pad.skip(1) + s);
        assert forall|i: int| 0 <= i < pad.skip(1).len() implies #[trigger] pad.skip(1)[i] == ' ' || pad.skip(1)[i]
            == '\0' by {
            assert(pad.skip(1)[i] == pad[i + 1]);
        }
        lemma_trims_start(pad.skip(1), s);
    }
}

proof fn lemma_trims_end(s: Seq<char>, pad: Seq<char>)
    requires
        forall|i: int| 0 <= i < pad.len() ==> #[trigger] pad[i] == ' ' || pad[i] == '\0',
        s.len() > 0,
        s.last() != ' ' && s.last() != '\0',
    ensures
        trim_end(s + pad) == s,
    decreases pad.len(),
{
    if pad.len() == 0 {
        assert(s + pad =~= s);
    } else {
        assert((s + pad).last() == pad[pad.len() - 1]);
        assert((s + pad).drop_last() =~= s + pad.drop_last());
        lemma_trims_end(s, pad.drop_last());
    }
}

/// Where the answer to an inquiry holds what is known of a device.
pub proof fn lemma_inquiry_layout(b: Seq<u8>)
    requires
        b.len() >= 36,
    ensures
        inquiry_of(b).device_type == b[0] % 32,
        inquiry_of(b).removable <==> b[1] >= 0x80,
        inquiry_of(b).version == b[2],
        inquiry_of(b).vendor == trimmed(utf8_lossy(b.subrange(8, 16))),
        inquiry_of(b).product == trimmed(utf8_lossy(b.subrange(16, 32))),
        inquiry_of(b).revision == trimmed(utf8_lossy(b.subrange(32, 36))),
{
}

/// A capacity in bytes is the number of blocks times their size.
pub proof fn lemma_capacity_bytes(count: u64, size: u32)
    ensures
        capacity_bytes(Capacity { block_count: count, block_size: size }) == count * size,
{
}

/// An answer that is cut short tells what it holds, and the texts behind its
/// end are empty.
pub proof fn lemma_short_inquiry(b: Seq<u8>)
    requires
        5 <= b.len() < 36,
    ensures
        b.len() >= 16 ==> inquiry_of(b).vendor == trimmed(utf8_lossy(b.subrange(8, 16))),
        8 <= b.len() < 16 ==> inquiry_of(b).vendor == trimmed(utf8_lossy(b.subrange(8, b.len() as int))),
        b.len() >= 32 ==> inquiry_of(b).product == trimmed(utf8_lossy(b.subrange(16, 32))),
        16 <= b.len() < 32 ==> inquiry_of(b).product == trimmed(utf8_lossy(b.subrange(16, b.len() as int))),
        b.len() < 32 ==> inquiry_of(b).revision == trimmed(utf8_lossy(Seq::empty())),
        b.len() >= 32 ==> inquiry_of(b).revision == trimmed(utf8_lossy(b.subrange(32, b.len() as int))),
{
}

/// What the sense keys are called, and how a sense is shown.
pub proof fn lemma_sense_names(s: Sense)
    ensures
        sense_text(s) == sense_key_text(s.key) + " (ASC 0x"@ + text::hex2(s.asc) + ", ASCQ 0x"@ + text::hex2(s.ascq) + ")"@,
        sense_key_text(SenseKey::NoSense) == "NoSense"@,
        sense_key_text(SenseKey::RecoveredError) == "RecoveredError"@,
        sense_key_text(SenseKey::NotReady) == "NotReady"@,
        sense_key_text(SenseKey::MediumError) == "MediumError"@,
        sense_key_text(SenseKey::HardwareError) == "HardwareError"@,
        sense_key_text(SenseKey::IllegalRequest) == "IllegalRequest"@,
        sense_key_text(SenseKey::UnitAttention) == "UnitAttention"@,
        sense_key_text(SenseKey::DataProtect) == "DataProtect"@,
        sense_key_text(SenseKey::BlankCheck) == "BlankCheck"@,
        sense_key_text(SenseKey::VendorSpecific) == "VendorSpecific"@,
        sense_key_text(SenseKey::CopyAborted) == "CopyAborted"@,
        sense_key_text(SenseKey::AbortedCommand) == "AbortedCommand"@,
        sense_key_text(SenseKey::VolumeOverflow) == "VolumeOverflow"@,
        sense_key_text(SenseKey::Miscompare) == "Miscompare"@,
{
}

/// Sense data that is cut short has no qualifiers, and without a key it is
/// none.
pub proof fn lemma_short_sense(b: Seq<u8>)
    requires
        b.len() > 0,
    ensures
        0x70 <= b[0] % 0x80 <= 0x71 ==> {
            &&& b.len() < 3 ==> sense_of(b) is None
            &&& 3 <= b.len() < 13 ==> sense_of(b) == Some(Sense { key: sense_key_of(b[2]), asc: 0, ascq: 0 })
            &&& b.len() == 13 ==> sense_of(b) == Some(Sense { key: sense_key_of(b[2]), asc: b[12], ascq: 0 })
        },
        0x72 <= b[0] % 0x80 <= 0x73 ==> {
            &&& b.len() < 2 ==> sense_of(b) is None
            &&& b.len() == 2 ==> sense_of(b) == Some(Sense { key: sense_key_of(b[1]), asc: 0, ascq: 0 })
            &&& b.len() == 3 ==> sense_of(b) == Some(Sense { key: sense_key_of(b[1]), asc: b[2], ascq: 0 })
        },
{
}

} // verus!
