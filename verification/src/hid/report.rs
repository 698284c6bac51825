//! HID report descriptor parsing (HID 1.11 §6.2.2).

use super::ReportType;
use crate::bytes::{le16, le16_at, le32, le32_at};
use crate::error::{message, Error, ErrorKind, Result};
use vstd::arithmetic::power2::{lemma_pow2_pos, lemma_pow2_strictly_increases, lemma_pow2_unfold, pow2};
use vstd::prelude::*;
use vstd::slice::slice_subrange;

pub mod usage;

verus! {

/// The three kinds of items in a report descriptor.
#[derive(Debug, Clone, Copy, PartialEq, Eq, Hash, Structural)]
pub enum ItemType {
    /// Main items (Input, Output, Feature, Collection, End Collection).
    Main,
    /// Global items, which persist until changed.
    Global,
    /// Local items, which apply to the next main item only.
    Local,
    /// Reserved item type 3, or a long item.
    Reserved,
}

/// One short (or long) item of a report descriptor, undecoded.
#[derive(Debug, Clone, Copy, PartialEq, Eq)]
pub struct Item<'a> {
    /// The item type.
    pub kind: ItemType,
    /// The item tag (the high nibble of the prefix byte; the long-item tag for
    /// long items).
    pub tag: u8,
    /// The item's data bytes, little-endian.
    pub data: &'a [u8],
}

/// What an [`Item`] holds.
#[verifier::ext_equal]
pub struct ItemView {
    pub kind: ItemType,
    pub tag: u8,
    pub data: Seq<u8>,
}

impl View for Item<'_> {
    type V = ItemView;

    open spec fn view(&self) -> ItemView {
        ItemView { kind: self.kind, tag: self.tag, data: self.data@ }
    }
}

/// The data of an item, zero-extended to 32 bits.
pub open spec fn unsigned_value(data: Seq<u8>) -> u32 {
    le32_at(data, 0)
}

/// The data of an item, sign-extended to 32 bits.
pub open spec fn signed_value(data: Seq<u8>) -> int {
    if data.len() == 0 {
        0
    } else if data.len() == 1 {
        two_complement(data[0] as int, 0x80)
    } else if data.len() == 2 {
        two_complement(le16_at(data, 0) as int, 0x8000)
    } else if data.len() == 3 {
        two_complement(le32_at(data, 0) as int, 0x80_0000)
    } else {
        two_complement(le32_at(data, 0) as int, 0x8000_0000)
    }
}

/// `v` below `2 * half`, read as a two's complement number.
pub open spec fn two_complement(v: int, half: int) -> int {
    if v >= half {
        v - 2 * half
    } else {
        v
    }
}

impl Item<'_> {
    /// The data zero-extended to 32 bits.
    pub fn unsigned(&self) -> (r: u32)
        ensures
            r == unsigned_value(self.data@),
    {
        le32(self.data, 0)
    }

    /// The data sign-extended to 32 bits.
    pub fn signed(&self) -> (r: i32)
        ensures
            r == signed_value(self.data@),
    {
        match self.data.len() {
            0 => 0,
            1 => {
                let v: i32 = self.data[0] as i32;
                if v >= 0x80 {
                    v - 0x100
                } else {
                    v
                }
            },
            2 => {
                let v: i32 = le16(self.data, 0) as i32;
                if v >= 0x8000 {
                    v - 0x1_0000
                } else {
                    v
                }
            },
            3 => {
                let v: u32 = self.unsigned();
                if v >= 0x80_0000 {
                    (v as i64 - 0x100_0000) as i32
                } else {
                    v as i32
                }
            },
            _ => {
                let v: i64 = self.unsigned() as i64;
                if v >= 0x8000_0000 {
                    (v - 0x1_0000_0000) as i32
                } else {
                    v as i32
                }
            },
        }
    }
}

/// The data size that the prefix of a short item announces.
pub open spec fn short_size(prefix: u8) -> int {
    if prefix % 4 == 3 {
        4
    } else {
        prefix as int % 4
    }
}

/// The item type that the prefix of a short item announces.
pub open spec fn short_kind(prefix: u8) -> ItemType {
    let k = (prefix as int / 4) % 4;
    if k == 0 {
        ItemType::Main
    } else if k == 1 {
        ItemType::Global
    } else if k == 2 {
        ItemType::Local
    } else {
        ItemType::Reserved
    }
}

/// How many bytes the first item of `b` takes, or 0 if it is truncated.
pub open spec fn item_size(b: Seq<u8>) -> int {
    if b.len() == 0 {
        0
    } else if b[0] == 0xfe {
        if b.len() >= 3 && 3 + b[1] <= b.len() {
            3 + b[1]
        } else {
            0
        }
    } else if 1 + short_size(b[0]) <= b.len() {
        1 + short_size(b[0])
    } else {
        0
    }
}

/// The first item of `b`.
pub open spec fn first_item(b: Seq<u8>) -> ItemView {
    if b[0] == 0xfe {
        ItemView { kind: ItemType::Reserved, tag: b[2], data: b.subrange(3, item_size(b)) }
    } else {
        ItemView { kind: short_kind(b[0]), tag: b[0] / 16, data: b.subrange(1, item_size(b)) }
    }
}

/// The items of a report descriptor, up to a truncated trailing one.
pub open spec fn items_of(b: Seq<u8>) -> Seq<ItemView>
    decreases b.len(),
{
    if item_size(b) > 0 {
        seq![first_item(b)] + items_of(b.skip(item_size(b)))
    } else {
        Seq::empty()
    }
}

/// The items as mathematical values.
pub open spec fn item_views(v: Seq<Item<'_>>) -> Seq<ItemView> {
    Seq::new(v.len(), |i: int| v[i]@)
}

/// The items of a report descriptor. Stops (without error) at a truncated
/// trailing item.
pub fn items(descriptor: &[u8]) -> (r: Vec<Item<'_>>)
    ensures
        item_views(r@) == items_of(descriptor@),
        r@.len() <= descriptor@.len(),
{
    let mut out: Vec<Item<'_>> = Vec::new();
    let mut pos: usize = 0;
    assert(descriptor@.skip(0) =~= descriptor@);
    assert(item_views(out@) =~= Seq::<ItemView>::empty());
    loop
        invariant
            pos <= descriptor@.len(),
            out@.len() <= pos,
            items_of(descriptor@) =~= item_views(out@) + items_of(descriptor@.skip(pos as int)),
        ensures
            out@.len() <= descriptor@.len(),
            items_of(descriptor@) =~= item_views(out@),
        decreases descriptor@.len() - pos,
    {
        let ghost rest = descriptor@.skip(pos as int);
        let left: usize = descriptor.len() - pos;
        let ghost before = item_views(out@);
        if left == 0 {
            assert(items_of(rest) =~= Seq::empty());
            break ;
        }
        let prefix: u8 = descriptor[pos];
        assert(rest[0] == prefix);
        let item;
        let size: usize;
        if prefix == 0xfe {
            // Long item: bDataSize, bLongItemTag, data.
            if left < 3 {
                assert(items_of(rest) =~= Seq::empty());
                break ;
            }
            let n: usize = descriptor[pos + 1] as usize;
            assert(rest[1] == n && rest[2] == descriptor@[pos + 2]);
            if n > left - 3 {
                assert(items_of(rest) =~= Seq::empty());
                break ;
            }
            size = 3 + n;
            let data = slice_subrange(descriptor, pos + 3, pos + size);
            assert(data@ =~= rest.subrange(3, size as int));
            item = Item { kind: ItemType::Reserved, tag: descriptor[pos + 2], data };
        } else {
            let n: usize = match prefix % 4 {
                3 => 4,
                m => m as usize,
            };
            if n > left - 1 {
                assert(items_of(rest) =~= Seq::empty());
                break ;
            }
            size = 1 + n;
            let data = slice_subrange(descriptor, pos + 1, pos + size);
            assert(data@ =~= rest.subrange(1, size as int));
            let kind = match (prefix / 4) % 4 {
                0 => ItemType::Main,
                1 => ItemType::Global,
                2 => ItemType::Local,
                _ => ItemType::Reserved,
            };
            item = Item { kind, tag: prefix / 16, data };
        }
        assert(item@ == first_item(rest));
        assert(rest.skip(size as int) =~= descriptor@.skip(pos + size));
        out.push(item);
        pos += size;
        assert(item_views(out@) =~= before.push(item@));
        assert(items_of(rest) == seq![item@] + items_of(descriptor@.skip(pos as int)));
    }
    out
}

/// A 32-bit usage: usage page in the high half, usage ID in the low half.
#[derive(Debug, Clone, Copy, PartialEq, Eq, Hash, PartialOrd, Ord, Structural)]
pub struct Usage(pub u32);

/// The usage of a page and an ID.
pub open spec fn usage_of(page: u16, id: u16) -> Usage {
    Usage((65536 * page + id) as u32)
}

impl Usage {
    /// Builds a usage from its page and ID.
    pub fn new(page: u16, id: u16) -> (r: Usage)
        ensures
            r == usage_of(page, id),
    {
        Usage(65536 * page as u32 + id as u32)
    }

    /// The usage page (for example 0x01, Generic Desktop).
    pub fn page(self) -> (r: u16)
        ensures
            r == self.0 / 65536,
    {
        (self.0 / 65536) as u16
    }

    /// The usage ID within the page (for example 0x06, Keyboard).
    pub fn id(self) -> (r: u16)
        ensures
            r == self.0 % 65536,
    {
        (self.0 % 65536) as u16
    }
}

/// A usage keeps the page and the ID it was built from, and every usage is
/// built from its page and its ID.
pub proof fn lemma_usage_round_trip(page: u16, id: u16, u: Usage)
    ensures
        usage_of(page, id).0 / 65536 == page,
        usage_of(page, id).0 % 65536 == id,
        usage_of((u.0 / 65536) as u16, (u.0 % 65536) as u16) == u,
{
}

/// Which usages a field reports.
#[derive(Debug, Clone, PartialEq, Eq)]
pub enum Usages {
    /// An explicit list. For a variable field, element `i` has usage `i`
    /// (the last one repeats); for an array field, these are the selectable
    /// usages, indexed from the field's logical minimum.
    List(Vec<Usage>),
    /// A contiguous range, from Usage Minimum to Usage Maximum.
    Range(Usage, Usage),
}

/// What a [`Usages`] holds.
#[verifier::ext_equal]
pub enum UsagesView {
    List(Seq<Usage>),
    Range(Usage, Usage),
}

impl View for Usages {
    type V = UsagesView;

    open spec fn view(&self) -> UsagesView {
        match *self {
            Usages::List(v) => UsagesView::List(v@),
            Usages::Range(min, max) => UsagesView::Range(min, max),
        }
    }
}

/// The usage at distance `index` from the start of a range.
pub open spec fn range_usage(min: Usage, max: Usage, index: int) -> Option<Usage> {
    let u = min.0 + index;
    if u <= max.0 {
        Some(Usage(u as u32))
    } else {
        None
    }
}

/// The usage of element `index` of a variable field.
pub open spec fn usage_at(u: UsagesView, index: int) -> Option<Usage> {
    match u {
        UsagesView::List(v) => if index < v.len() {
            Some(v[index])
        } else if v.len() > 0 {
            Some(v.last())
        } else {
            None
        },
        UsagesView::Range(min, max) => range_usage(min, max, index),
    }
}

impl Usages {
    /// The usage of element `index` of a variable field.
    pub fn get(&self, index: usize) -> (r: Option<Usage>)
        ensures
            r == usage_at(self@, index as int),
    {
        match self {
            Usages::List(v) => {
                if index < v.len() {
                    Some(v[index])
                } else if v.len() > 0 {
                    Some(v[v.len() - 1])
                } else {
                    None
                }
            },
            Usages::Range(min, max) => {
                if index as u64 > u32::MAX as u64 {
                    return None;
                }
                match min.0.checked_add(index as u32) {
                    Some(u) => if u <= max.0 {
                        Some(Usage(u))
                    } else {
                        None
                    },
                    None => None,
                }
            },
        }
    }
}

/// One Input, Output or Feature main item: `count` elements of `bit_size`
/// bits each, starting at `bit_offset` within its report.
#[derive(Debug, Clone, PartialEq, Eq)]
pub struct Field {
    /// Which report kind the field belongs to.
    pub report_type: ReportType,
    /// The report ID, or 0 when the device does not use report IDs.
    pub report_id: u8,
    /// Bit offset of the first element within the report, *not* counting the
    /// report ID byte.
    pub bit_offset: u32,
    /// Size of each element in bits (Report Size).
    pub bit_size: u32,
    /// Number of elements (Report Count).
    pub count: u32,
    /// The main item's data bits (bit 0 constant, bit 1 variable, bit 2
    /// relative, ...).
    pub flags: u32,
    /// The usages the elements report.
    pub usages: Usages,
    /// Logical Minimum.
    pub logical_min: i64,
    /// Logical Maximum.
    pub logical_max: i64,
    /// Physical Minimum.
    pub physical_min: i64,
    /// Physical Maximum.
    pub physical_max: i64,
    /// Unit Exponent.
    pub unit_exponent: i32,
    /// Unit.
    pub unit: u32,
}

/// What a [`Field`] holds.
#[verifier::ext_equal]
pub struct FieldView {
    pub report_type: ReportType,
    pub report_id: u8,
    pub bit_offset: u32,
    pub bit_size: u32,
    pub count: u32,
    pub flags: u32,
    pub usages: UsagesView,
    pub logical_min: i64,
    pub logical_max: i64,
    pub physical_min: i64,
    pub physical_max: i64,
    pub unit_exponent: i32,
    pub unit: u32,
}

impl View for Field {
    type V = FieldView;

    open spec fn view(&self) -> FieldView {
        FieldView {
            report_type: self.report_type,
            report_id: self.report_id,
            bit_offset: self.bit_offset,
            bit_size: self.bit_size,
            count: self.count,
            flags: self.flags,
            usages: self.usages@,
            logical_min: self.logical_min,
            logical_max: self.logical_max,
            physical_min: self.physical_min,
            physical_max: self.physical_max,
            unit_exponent: self.unit_exponent,
            unit: self.unit,
        }
    }
}

/// Bit `at` of a report, counting from the low bit of its first byte.
pub open spec fn bit_of(report: Seq<u8>, at: int) -> int {
    (report[at / 8] as int / pow2((at % 8) as nat) as int) % 2
}

/// The `n` bits of a report from `start`, low bit first.
pub open spec fn bits_value(report: Seq<u8>, start: int, n: nat) -> int
    decreases n,
{
    if n == 0 {
        0
    } else {
        bits_value(report, start, (n - 1) as nat) + bit_of(report, start + n - 1) * pow2((n - 1) as nat)
    }
}

/// The first bit of element `index` of a field.
pub open spec fn element_start(f: FieldView, index: u32) -> int {
    f.bit_offset + index * f.bit_size
}

/// The value of element `index` of a field, read from a report without its
/// ID byte.
pub open spec fn field_value(f: FieldView, report: Seq<u8>, index: u32) -> Option<int> {
    if index >= f.count || f.bit_size == 0 || f.bit_size > 32 || element_start(f, index) + f.bit_size > 8
        * report.len() {
        None
    } else {
        let v = bits_value(report, element_start(f, index), f.bit_size as nat);
        if f.logical_min < 0 {
            Some(two_complement(v, pow2((f.bit_size - 1) as nat) as int))
        } else {
            Some(v)
        }
    }
}

/// The usage that a value of an array field selects.
pub open spec fn selected_usage(f: FieldView, value: int) -> Option<Usage> {
    if value < f.logical_min || value > f.logical_max {
        None
    } else {
        match f.usages {
            UsagesView::List(v) => if value - f.logical_min < v.len() {
                Some(v[value - f.logical_min])
            } else {
                None
            },
            UsagesView::Range(min, max) => range_usage(min, max, value - f.logical_min),
        }
    }
}

proof fn lemma_bits_bound(report: Seq<u8>, start: int, n: nat)
    ensures
        0 <= bits_value(report, start, n) < pow2(n),
    decreases n,
{
    lemma_pow2_pos(n);
    if n > 0 {
        lemma_bits_bound(report, start, (n - 1) as nat);
        lemma_pow2_unfold(n);
        let b = bit_of(report, start + n - 1);
        let p = pow2((n - 1) as nat) as int;
        assert(b == 0 || b == 1);
        assert(b * p == 0 || b * p == p) by (nonlinear_arith)
            requires
                b == 0 || b == 1,
        ;
    } else {
        assert(pow2(0) == 1) by {
            vstd::arithmetic::power2::lemma2_to64();
        }
    }
}

/// The top bit of a value decides whether it reaches the upper half.
proof fn lemma_top_bit(report: Seq<u8>, start: int, n: nat)
    requires
        n > 0,
    ensures
        bit_of(report, start + n - 1) == 1 <==> bits_value(report, start, n) >= pow2((n - 1) as nat),
{
    lemma_bits_bound(report, start, (n - 1) as nat);
    let b = bit_of(report, start + n - 1);
    let p = pow2((n - 1) as nat) as int;
    assert(b == 0 || b == 1);
    assert(b * p == 0 || b * p == p) by (nonlinear_arith)
        requires
            b == 0 || b == 1,
    ;
    assert(b == 1 ==> b * p == p) by (nonlinear_arith);
    assert(b == 0 ==> b * p == 0) by (nonlinear_arith);
}

/// Whether bit `at` of a report is set.
fn report_bit(report: &[u8], at: u64) -> (r: bool)
    requires
        at / 8 < report@.len(),
    ensures
        r == (bit_of(report@, at as int) == 1),
{
    let byte: u8 = report[(at / 8) as usize];
    proof {
        vstd::arithmetic::power2::lemma2_to64();
    }
    let weight: u8 = match at % 8 {
        0 => 1,
        1 => 2,
        2 => 4,
        3 => 8,
        4 => 16,
        5 => 32,
        6 => 64,
        _ => 128,
    };
    (byte / weight) % 2 == 1
}

impl Field {
    /// `true` for padding and other constant fields.
    pub fn is_constant(&self) -> (r: bool)
        ensures
            r == (self.flags % 2 == 1),
    {
        self.flags % 2 == 1
    }

    /// `true` for a variable field (one value per usage); `false` for an
    /// array field (a list of selected usage indices, like keyboard keys).
    pub fn is_variable(&self) -> (r: bool)
        ensures
            r == ((self.flags / 2) % 2 == 1),
    {
        (self.flags / 2) % 2 == 1
    }

    /// `true` if values are relative (mouse motion) rather than absolute.
    pub fn is_relative(&self) -> (r: bool)
        ensures
            r == ((self.flags / 4) % 2 == 1),
    {
        (self.flags / 4) % 2 == 1
    }

    /// Extracts element `index` from a report. `report` must *not* carry the
    /// report ID byte (see [`ReportDescriptor::strip_id`]). The value is
    /// sign-extended when the logical minimum is negative. `None` if the
    /// element lies outside `report`.
    pub fn value(&self, report: &[u8], index: u32) -> (r: Option<i64>)
        ensures
            match field_value(self@, report@, index) {
                Some(v) => r is Some && r->0 == v,
                None => r is None,
            },
    {
        if index >= self.count || self.bit_size == 0 || self.bit_size > 32 {
            return None;
        }
        let size: u32 = self.bit_size;
        assert(index * size <= 0xffff_ffff * 32) by (nonlinear_arith)
            requires
                index <= 0xffff_ffff,
                size <= 32,
        ;
        let start: u64 = self.bit_offset as u64 + index as u64 * size as u64;
        let end: u64 = start + size as u64;
        if (end + 7) / 8 > report.len() as u64 {
            return None;
        }
        let mut v: u64 = 0;
        let mut weight: u64 = 1;
        let mut i: u32 = 0;
        proof {
            vstd::arithmetic::power2::lemma2_to64();
        }
        while i < size
            invariant
                i <= size <= 32,
                end == start + size,
                (end + 7) / 8 <= report@.len(),
                start <= 0x21_0000_0000,
                weight == pow2(i as nat),
                v == bits_value(report@, start as int, i as nat),
            decreases size - i,
        {
            proof {
                lemma_bits_bound(report@, start as int, i as nat);
                lemma_bits_bound(report@, start as int, (i + 1) as nat);
                lemma_pow2_unfold((i + 1) as nat);
                vstd::arithmetic::power2::lemma2_to64();
                if i < 32 {
                    lemma_pow2_strictly_increases(i as nat, 32);
                }
            }
            let set = report_bit(report, start + i as u64);
            assert(bit_of(report@, start + i) * weight == (if set { weight as int } else { 0 })) by (nonlinear_arith)
                requires
                    bit_of(report@, start + i) == (if set { 1int } else { 0int }),
            ;
            if set {
                v += weight;
            }
            weight *= 2;
            i += 1;
        }
        proof {
            lemma_bits_bound(report@, start as int, size as nat);
            lemma_pow2_unfold(size as nat);
            vstd::arithmetic::power2::lemma2_to64();
            if size < 32 {
                lemma_pow2_strictly_increases(size as nat, 32);
            }
            lemma_top_bit(report@, start as int, size as nat);
        }
        if self.logical_min < 0 && report_bit(report, end - 1) {
            Some(v as i64 - weight as i64)
        } else {
            Some(v as i64)
        }
    }

    /// For an array field, maps a value read with [`value`](Self::value) to
    /// the usage it selects. `None` for "no selection" and out-of-range
    /// values.
    pub fn array_usage(&self, value: i64) -> (r: Option<Usage>)
        ensures
            r == selected_usage(self@, value as int),
    {
        if value < self.logical_min || value > self.logical_max {
            return None;
        }
        let distance: i128 = value as i128 - self.logical_min as i128;
        match &self.usages {
            Usages::List(v) => if distance < v.len() as i128 {
                Some(v[distance as usize])
            } else {
                None
            },
            Usages::Range(min, max) => if distance <= usize::MAX as i128 {
                self.usages.get(distance as usize)
            } else {
                None
            },
        }
    }
}

// ----- the parser's state ---------------------------------------------------

/// Global items, which persist until changed.
#[derive(Debug, Clone, Copy, PartialEq, Eq, Structural)]
pub struct Globals {
    pub usage_page: u16,
    pub logical_min: i64,
    pub logical_max: i64,
    pub physical_min: i64,
    pub physical_max: i64,
    pub unit_exponent: i32,
    pub unit: u32,
    pub report_size: u32,
    pub report_id: u8,
    pub report_count: u32,
    /// Size of the Logical Maximum item, to reinterpret it as unsigned.
    pub logical_max_size: usize,
}

/// The globals before any item.
pub open spec fn no_globals() -> Globals {
    Globals {
        usage_page: 0,
        logical_min: 0,
        logical_max: 0,
        physical_min: 0,
        physical_max: 0,
        unit_exponent: 0,
        unit: 0,
        report_size: 0,
        report_id: 0,
        report_count: 0,
        logical_max_size: 0,
    }
}

/// The limits of the logical range, which come from items of at most 32 bits.
pub open spec fn globals_wf(g: Globals) -> bool {
    &&& i32::MIN <= g.logical_min <= i32::MAX
    &&& i32::MIN <= g.logical_max <= i32::MAX
    &&& g.logical_max_size == 1 ==> -0x80 <= g.logical_max <= 0x7f
    &&& g.logical_max_size == 2 ==> -0x8000 <= g.logical_max <= 0x7fff
}

/// Bits that one report takes: its type, its ID and its size.
pub type ReportSize = (ReportType, u8, u32);

/// Where parsing has got to.
#[verifier::ext_equal]
pub struct ParseView {
    pub fields: Seq<FieldView>,
    pub application_usages: Seq<Usage>,
    pub reports: Seq<ReportSize>,
    pub uses_ids: bool,
    pub globals: Globals,
    pub stack: Seq<Globals>,
    pub depth: nat,
    /// Usages since the last main item, and whether each carries its page.
    pub usages: Seq<(u32, bool)>,
    pub usage_min: Option<(u32, bool)>,
    pub usage_max: Option<(u32, bool)>,
}

/// Where parsing starts.
pub open spec fn start() -> ParseView {
    ParseView {
        fields: Seq::empty(),
        application_usages: Seq::empty(),
        reports: Seq::empty(),
        uses_ids: false,
        globals: no_globals(),
        stack: Seq::empty(),
        depth: 0,
        usages: Seq::empty(),
        usage_min: None,
        usage_max: None,
    }
}

/// The outcome of parsing some items: the state reached, or what was wrong.
pub type Step = std::result::Result<ParseView, Seq<char>>;

/// A usage item resolved against the usage page: a 1- or 2-byte usage takes
/// the page current at the main item, a 4-byte one carries its own.
pub open spec fn resolved(page: u16, raw: (u32, bool)) -> Usage {
    if raw.1 {
        Usage(raw.0)
    } else {
        usage_of(page, (raw.0 % 65536) as u16)
    }
}

/// The usages of a main item.
pub open spec fn resolved_all(page: u16, raw: Seq<(u32, bool)>) -> Seq<Usage> {
    Seq::new(raw.len(), |i: int| resolved(page, raw[i]))
}

/// The usages that a field reports: the range if there is one and no list.
pub open spec fn field_usages(p: ParseView) -> UsagesView {
    let page = p.globals.usage_page;
    if p.usage_min is Some && p.usage_max is Some && p.usages.len() == 0 {
        UsagesView::Range(resolved(page, p.usage_min->0), resolved(page, p.usage_max->0))
    } else {
        UsagesView::List(resolved_all(page, p.usages))
    }
}

/// The logical maximum, read as unsigned when the minimum is not negative.
pub open spec fn effective_max(g: Globals) -> i64 {
    if g.logical_min >= 0 && g.logical_max < 0 {
        if g.logical_max_size == 1 {
            (g.logical_max as int % 0x100) as i64
        } else if g.logical_max_size == 2 {
            (g.logical_max as int % 0x1_0000) as i64
        } else {
            (g.logical_max as int % 0x1_0000_0000) as i64
        }
    } else {
        g.logical_max
    }
}

/// The position of the first report of this type and ID, or the number of
/// reports if there is none.
pub open spec fn report_position(reports: Seq<ReportSize>, kind: ReportType, id: u8) -> int
    decreases reports.len(),
{
    if reports.len() == 0 || (reports[0].0 == kind && reports[0].1 == id) {
        0
    } else {
        1 + report_position(reports.skip(1), kind, id)
    }
}

/// The bits that a report has so far.
pub open spec fn report_bits(reports: Seq<ReportSize>, kind: ReportType, id: u8) -> int {
    let k = report_position(reports, kind, id);
    if k < reports.len() {
        reports[k].2 as int
    } else {
        0
    }
}

/// The reports with one of them resized, or added.
pub open spec fn with_report_bits(reports: Seq<ReportSize>, kind: ReportType, id: u8, bits: u32) -> Seq<ReportSize> {
    let k = report_position(reports, kind, id);
    if k < reports.len() {
        reports.update(k, (kind, id, bits))
    } else {
        reports.push((kind, id, bits))
    }
}

/// The effect of a global item.
pub open spec fn global_step(p: ParseView, item: ItemView) -> Step {
    let g = p.globals;
    let u = unsigned_value(item.data);
    let s = signed_value(item.data);
    if item.tag == 0x0 {
        Ok(ParseView { globals: Globals { usage_page: (u % 65536) as u16, ..g }, ..p })
    } else if item.tag == 0x1 {
        Ok(ParseView { globals: Globals { logical_min: s as i64, ..g }, ..p })
    } else if item.tag == 0x2 {
        Ok(
            ParseView {
                globals: Globals { logical_max: s as i64, logical_max_size: item.data.len() as usize, ..g },
                ..p
            },
        )
    } else if item.tag == 0x3 {
        Ok(ParseView { globals: Globals { physical_min: s as i64, ..g }, ..p })
    } else if item.tag == 0x4 {
        Ok(ParseView { globals: Globals { physical_max: s as i64, ..g }, ..p })
    } else if item.tag == 0x5 {
        Ok(ParseView { globals: Globals { unit_exponent: s as i32, ..g }, ..p })
    } else if item.tag == 0x6 {
        Ok(ParseView { globals: Globals { unit: u, ..g }, ..p })
    } else if item.tag == 0x7 {
        Ok(ParseView { globals: Globals { report_size: u, ..g }, ..p })
    } else if item.tag == 0x8 {
        if u == 0 || u > 255 {
            Err("report ID out of range"@)
        } else {
            Ok(ParseView { globals: Globals { report_id: u as u8, ..g }, uses_ids: true, ..p })
        }
    } else if item.tag == 0x9 {
        Ok(ParseView { globals: Globals { report_count: u, ..g }, ..p })
    } else if item.tag == 0xa {
        Ok(ParseView { stack: p.stack.push(g), ..p })
    } else if item.tag == 0xb {
        if p.stack.len() == 0 {
            Err("Pop without Push"@)
        } else {
            Ok(ParseView { globals: p.stack.last(), stack: p.stack.drop_last(), ..p })
        }
    } else {
        Ok(p)
    }
}

/// The effect of a local item.
pub open spec fn local_step(p: ParseView, item: ItemView) -> ParseView {
    let raw = (unsigned_value(item.data), item.data.len() == 4);
    if item.tag == 0x0 {
        ParseView { usages: p.usages.push(raw), ..p }
    } else if item.tag == 0x1 {
        ParseView { usage_min: Some(raw), ..p }
    } else if item.tag == 0x2 {
        ParseView { usage_max: Some(raw), ..p }
    } else {
        p
    }
}

/// The report type that a main item's tag names.
pub open spec fn field_type(tag: u8) -> ReportType {
    if tag == 0x8 {
        ReportType::Input
    } else if tag == 0x9 {
        ReportType::Output
    } else {
        ReportType::Feature
    }
}

/// The field that an Input, Output or Feature item declares.
pub open spec fn declared_field(p: ParseView, item: ItemView) -> FieldView {
    let g = p.globals;
    FieldView {
        report_type: field_type(item.tag),
        report_id: g.report_id,
        bit_offset: report_bits(p.reports, field_type(item.tag), g.report_id) as u32,
        bit_size: g.report_size,
        count: g.report_count,
        flags: unsigned_value(item.data),
        usages: field_usages(p),
        logical_min: g.logical_min,
        logical_max: effective_max(g),
        physical_min: g.physical_min,
        physical_max: g.physical_max,
        unit_exponent: g.unit_exponent,
        unit: g.unit,
    }
}

/// The state without local items.
pub open spec fn without_locals(p: ParseView) -> ParseView {
    ParseView { usages: Seq::empty(), usage_min: None, usage_max: None, ..p }
}

/// The usages of the application collections after a Collection item.
pub open spec fn collection_usages(p: ParseView, item: ItemView) -> Seq<Usage> {
    let page = p.globals.usage_page;
    if p.depth == 0 && unsigned_value(item.data) == 1 {
        if p.usages.len() > 0 {
            p.application_usages.push(resolved(page, p.usages[0]))
        } else if p.usage_min is Some {
            p.application_usages.push(resolved(page, p.usage_min->0))
        } else {
            p.application_usages
        }
    } else {
        p.application_usages
    }
}

/// The effect of a main item.
pub open spec fn main_step(p: ParseView, item: ItemView) -> Step {
    let g = p.globals;
    let q = without_locals(p);
    if item.tag == 0x8 || item.tag == 0x9 || item.tag == 0xb {
        let kind = field_type(item.tag);
        let end = report_bits(p.reports, kind, g.report_id) + g.report_size * g.report_count;
        if end > u32::MAX {
            Err("report too large"@)
        } else {
            Ok(
                ParseView {
                    fields: p.fields.push(declared_field(p, item)),
                    reports: with_report_bits(p.reports, kind, g.report_id, end as u32),
                    ..q
                },
            )
        }
    } else if item.tag == 0xa {
        Ok(ParseView { application_usages: collection_usages(p, item), depth: p.depth + 1, ..q })
    } else if item.tag == 0xc {
        if p.depth == 0 {
            Err("End Collection without Collection"@)
        } else {
            Ok(ParseView { depth: (p.depth - 1) as nat, ..q })
        }
    } else {
        Ok(q)
    }
}

/// The effect of one item.
pub open spec fn step(p: ParseView, item: ItemView) -> Step {
    match item.kind {
        ItemType::Global => global_step(p, item),
        ItemType::Local => Ok(local_step(p, item)),
        ItemType::Main => main_step(p, item),
        ItemType::Reserved => Ok(p),
    }
}

/// The outcome of a list of items.
pub open spec fn run(items: Seq<ItemView>) -> Step
    decreases items.len(),
{
    if items.len() == 0 {
        Ok(start())
    } else {
        match run(items.drop_last()) {
            Ok(p) => step(p, items.last()),
            Err(m) => Err(m),
        }
    }
}

/// A parsed report descriptor: its fields and report layouts.
#[derive(Debug, Clone, PartialEq, Eq)]
pub struct ReportDescriptor {
    /// Every Input, Output and Feature field, in descriptor order.
    pub fields: Vec<Field>,
    /// The usages of the top-level application collections, which say what
    /// the device is (keyboard, mouse, FIDO token, ...).
    pub application_usages: Vec<Usage>,
    /// The type, ID and size in bits of every report, in descriptor order.
    pub reports: Vec<(ReportType, u8, u32)>,
    /// Whether the descriptor declares report IDs.
    pub uses_ids: bool,
}

/// What a [`ReportDescriptor`] holds.
#[verifier::ext_equal]
pub struct ReportDescriptorView {
    pub fields: Seq<FieldView>,
    pub application_usages: Seq<Usage>,
    pub reports: Seq<ReportSize>,
    pub uses_ids: bool,
}

/// The fields as mathematical values.
pub open spec fn field_views(v: Seq<Field>) -> Seq<FieldView> {
    Seq::new(v.len(), |i: int| v[i]@)
}

impl View for ReportDescriptor {
    type V = ReportDescriptorView;

    open spec fn view(&self) -> ReportDescriptorView {
        ReportDescriptorView {
            fields: field_views(self.fields@),
            application_usages: self.application_usages@,
            reports: self.reports@,
            uses_ids: self.uses_ids,
        }
    }
}

/// What is left of the parser's state once it has seen every item.
pub open spec fn finished(p: ParseView) -> ReportDescriptorView {
    ReportDescriptorView {
        fields: p.fields,
        application_usages: p.application_usages,
        reports: p.reports,
        uses_ids: p.uses_ids,
    }
}

proof fn lemma_report_position(reports: Seq<ReportSize>, kind: ReportType, id: u8, k: int)
    requires
        0 <= k <= reports.len(),
        forall|j: int| 0 <= j < k ==> !((#[trigger] reports[j]).0 == kind && reports[j].1 == id),
        k < reports.len() ==> reports[k].0 == kind && reports[k].1 == id,
    ensures
        report_position(reports, kind, id) == k,
    decreases reports.len(),
{
    if k > 0 {
        assert(!(reports[0].0 == kind && reports[0].1 == id));
        let w = reports.skip(1);
        assert forall|j: int| 0 <= j < k - 1 implies !((#[trigger] w[j]).0 == kind && w[j].1 == id) by {
            assert(w[j] == reports[j + 1]);
        }
        lemma_report_position(w, kind, id, k - 1);
    }
}

/// The parser at work.
struct Parser {
    fields: Vec<Field>,
    application_usages: Vec<Usage>,
    reports: Vec<(ReportType, u8, u32)>,
    uses_ids: bool,
    globals: Globals,
    stack: Vec<Globals>,
    depth: usize,
    usages: Vec<(u32, bool)>,
    usage_min: Option<(u32, bool)>,
    usage_max: Option<(u32, bool)>,
}

impl View for Parser {
    type V = ParseView;

    closed spec fn view(&self) -> ParseView {
        ParseView {
            fields: field_views(self.fields@),
            application_usages: self.application_usages@,
            reports: self.reports@,
            uses_ids: self.uses_ids,
            globals: self.globals,
            stack: self.stack@,
            depth: self.depth as nat,
            usages: self.usages@,
            usage_min: self.usage_min,
            usage_max: self.usage_max,
        }
    }
}

/// A usage item resolved against the usage page.
fn resolve(page: u16, raw: (u32, bool)) -> (r: Usage)
    ensures
        r == resolved(page, raw),
{
    if raw.1 {
        Usage(raw.0)
    } else {
        Usage::new(page, (raw.0 % 65536) as u16)
    }
}

/// The position of a report among those sized so far.
fn find_report(reports: &Vec<(ReportType, u8, u32)>, kind: ReportType, id: u8) -> (r: usize)
    ensures
        r == report_position(reports@, kind, id),
        r <= reports@.len(),
        r < reports@.len() ==> reports@[r as int].0 == kind && reports@[r as int].1 == id,
{
    let mut i: usize = 0;
    while i < reports.len()
        invariant
            i <= reports@.len(),
            forall|j: int| 0 <= j < i ==> !((#[trigger] reports@[j]).0 == kind && reports@[j].1 == id),
        decreases reports@.len() - i,
    {
        if reports[i].0 == kind && reports[i].1 == id {
            proof {
                lemma_report_position(reports@, kind, id, i as int);
            }
            return i;
        }
        i += 1;
    }
    proof {
        lemma_report_position(reports@, kind, id, i as int);
    }
    i
}

impl Parser {
    spec fn wf(&self) -> bool {
        &&& globals_wf(self.globals)
        &&& forall|i: int| 0 <= i < self.stack@.len() ==> globals_wf(#[trigger] self.stack@[i])
    }

    fn new() -> (r: Parser)
        ensures
            r@ == start(),
            r.wf(),
    {
        let r = Parser {
            fields: Vec::new(),
            application_usages: Vec::new(),
            reports: Vec::new(),
            uses_ids: false,
            globals: Globals {
                usage_page: 0,
                logical_min: 0,
                logical_max: 0,
                physical_min: 0,
                physical_max: 0,
                unit_exponent: 0,
                unit: 0,
                report_size: 0,
                report_id: 0,
                report_count: 0,
                logical_max_size: 0,
            },
            stack: Vec::new(),
            depth: 0,
            usages: Vec::new(),
            usage_min: None,
            usage_max: None,
        };
        assert(r@ =~= start());
        r
    }

    fn global(&mut self, item: &Item<'_>) -> (r: Result<()>)
        requires
            old(self).wf(),
        ensures
            match global_step(old(self)@, item@) {
                Ok(p) => r is Ok && final(self)@ == p && final(self).wf(),
                Err(m) => r is Err && r->Err_0@ == message(ErrorKind::InvalidParam, m),
            },
            final(self).depth == old(self).depth,
    {
        match item.tag {
            0x0 => {
                self.globals.usage_page = (item.unsigned() % 65536) as u16;
            },
            0x1 => {
                self.globals.logical_min = item.signed() as i64;
            },
            0x2 => {
                self.globals.logical_max = item.signed() as i64;
                self.globals.logical_max_size = item.data.len();
            },
            0x3 => {
                self.globals.physical_min = item.signed() as i64;
            },
            0x4 => {
                self.globals.physical_max = item.signed() as i64;
            },
            0x5 => {
                self.globals.unit_exponent = item.signed();
            },
            0x6 => {
                self.globals.unit = item.unsigned();
            },
            0x7 => {
                self.globals.report_size = item.unsigned();
            },
            0x8 => {
                let id: u32 = item.unsigned();
                if id == 0 || id > 255 {
                    return Err(Error::with_message(ErrorKind::InvalidParam, "report ID out of range"));
                }
                self.globals.report_id = id as u8;
                self.uses_ids = true;
            },
            0x9 => {
                self.globals.report_count = item.unsigned();
            },
            0xa => {
                self.stack.push(self.globals);
            },
            0xb => {
                match self.stack.pop() {
                    Some(g) => {
                        assert(g == old(self).stack@.last());
                        self.globals = g;
                    },
                    None => {
                        return Err(Error::with_message(ErrorKind::InvalidParam, "Pop without Push"));
                    },
                }
            },
            _ => {},
        }
        Ok(())
    }

    fn local(&mut self, item: &Item<'_>)
        ensures
            final(self)@ == local_step(old(self)@, item@),
            old(self).wf() ==> final(self).wf(),
            final(self).depth == old(self).depth,
    {
        let raw: (u32, bool) = (item.unsigned(), item.data.len() == 4);
        match item.tag {
            0x0 => {
                self.usages.push(raw);
            },
            0x1 => {
                self.usage_min = Some(raw);
            },
            0x2 => {
                self.usage_max = Some(raw);
            },
            _ => {},
        }
    }

    /// The usages of the field that the pending local items describe.
    fn field_usages(&self) -> (r: Usages)
        ensures
            r@ == field_usages(self@),
    {
        let page: u16 = self.globals.usage_page;
        if self.usages.len() == 0 {
            match (self.usage_min, self.usage_max) {
                (Some(min), Some(max)) => {
                    return Usages::Range(resolve(page, min), resolve(page, max));
                },
                _ => {},
            }
        }
        let mut list: Vec<Usage> = Vec::new();
        let mut i: usize = 0;
        while i < self.usages.len()
            invariant
                i <= self.usages@.len(),
                page == self.globals.usage_page,
                list@.len() == i,
                forall|j: int| 0 <= j < i ==> #[trigger] list@[j] == resolved(page, self.usages@[j]),
            decreases self.usages@.len() - i,
        {
            list.push(resolve(page, self.usages[i]));
            i += 1;
        }
        assert(list@ =~= resolved_all(page, self.usages@));
        Usages::List(list)
    }

    /// The logical maximum, read as unsigned when the minimum is not
    /// negative (HID 1.11 §5.8, and what every host stack does with 0..255 in
    /// one byte).
    fn effective_max(&self) -> (r: i64)
        requires
            self.wf(),
        ensures
            r == effective_max(self.globals),
    {
        if self.globals.logical_min >= 0 && self.globals.logical_max < 0 {
            match self.globals.logical_max_size {
                1 => self.globals.logical_max + 0x100,
                2 => self.globals.logical_max + 0x1_0000,
                _ => self.globals.logical_max + 0x1_0000_0000,
            }
        } else {
            self.globals.logical_max
        }
    }

    fn field(&mut self, item: &Item<'_>) -> (r: Result<()>)
        requires
            old(self).wf(),
            item.tag == 0x8 || item.tag == 0x9 || item.tag == 0xb,
        ensures
            match main_step(old(self)@, item@) {
                Ok(p) => r is Ok && without_locals(final(self)@) == p && final(self).wf(),
                Err(m) => r is Err && r->Err_0@ == message(ErrorKind::InvalidParam, m),
            },
            final(self).depth == old(self).depth,
    {
        let report_type = match item.tag {
            0x8 => ReportType::Input,
            0x9 => ReportType::Output,
            _ => ReportType::Feature,
        };
        let id: u8 = self.globals.report_id;
        let at: usize = find_report(&self.reports, report_type, id);
        let bit_offset: u32 = if at < self.reports.len() {
            self.reports[at].2
        } else {
            0
        };
        let ghost size = self.globals.report_size * self.globals.report_count;
        assert(size >= 0) by (nonlinear_arith)
            requires
                size == self.globals.report_size * self.globals.report_count,
        ;
        let end: u32 = match self.globals.report_size.checked_mul(self.globals.report_count) {
            Some(bits) => match bit_offset.checked_add(bits) {
                Some(end) => end,
                None => {
                    return Err(Error::with_message(ErrorKind::InvalidParam, "report too large"));
                },
            },
            None => {
                return Err(Error::with_message(ErrorKind::InvalidParam, "report too large"));
            },
        };
        let usages = self.field_usages();
        let logical_max: i64 = self.effective_max();
        let ghost fields = field_views(self.fields@);
        let field = Field {
            report_type,
            report_id: id,
            bit_offset,
            bit_size: self.globals.report_size,
            count: self.globals.report_count,
            flags: item.unsigned(),
            usages,
            logical_min: self.globals.logical_min,
            logical_max,
            physical_min: self.globals.physical_min,
            physical_max: self.globals.physical_max,
            unit_exponent: self.globals.unit_exponent,
            unit: self.globals.unit,
        };
        assert(field@ =~= declared_field(old(self)@, item@));
        if at < self.reports.len() {
            self.reports.set(at, (report_type, id, end));
        } else {
            self.reports.push((report_type, id, end));
        }
        self.fields.push(field);
        assert(field_views(self.fields@) =~= fields.push(field@));
        Ok(())
    }

    fn main(&mut self, item: &Item<'_>) -> (r: Result<()>)
        requires
            old(self).wf(),
            old(self).depth < usize::MAX,
        ensures
            match main_step(old(self)@, item@) {
                Ok(p) => r is Ok && final(self)@ == p && final(self).wf(),
                Err(m) => r is Err && r->Err_0@ == message(ErrorKind::InvalidParam, m),
            },
            final(self).depth <= old(self).depth + 1,
    {
        match item.tag {
            0x8 | 0x9 | 0xb => {
                match self.field(item) {
                    Ok(()) => {},
                    Err(e) => {
                        return Err(e);
                    },
                }
            },
            0xa => {
                if self.depth == 0 && item.unsigned() == 1 {
                    let page: u16 = self.globals.usage_page;
                    if self.usages.len() > 0 {
                        self.application_usages.push(resolve(page, self.usages[0]));
                    } else {
                        match self.usage_min {
                            Some(raw) => {
                                self.application_usages.push(resolve(page, raw));
                            },
                            None => {},
                        }
                    }
                }
                self.depth = self.depth + 1;
            },
            0xc => {
                if self.depth == 0 {
                    return Err(Error::with_message(ErrorKind::InvalidParam, "End Collection without Collection"));
                }
                self.depth = self.depth - 1;
            },
            _ => {},
        }
        self.usages = Vec::new();
        self.usage_min = None;
        self.usage_max = None;
        Ok(())
    }

    fn item(&mut self, item: &Item<'_>) -> (r: Result<()>)
        requires
            old(self).wf(),
            old(self).depth < usize::MAX,
        ensures
            match step(old(self)@, item@) {
                Ok(p) => r is Ok && final(self)@ == p && final(self).wf(),
                Err(m) => r is Err && r->Err_0@ == message(ErrorKind::InvalidParam, m),
            },
            final(self).depth <= old(self).depth + 1,
    {
        match item.kind {
            ItemType::Global => self.global(item),
            ItemType::Local => {
                self.local(item);
                Ok(())
            },
            ItemType::Main => self.main(item),
            ItemType::Reserved => Ok(()),
        }
    }
}

proof fn lemma_run_failed(items: Seq<ItemView>, k: int)
    requires
        0 <= k <= items.len(),
        run(items.take(k)) is Err,
    ensures
        run(items) == run(items.take(k)),
    decreases items.len() - k,
{
    if k < items.len() {
        assert(items.take(k + 1).drop_last() =~= items.take(k));
        lemma_run_failed(items, k + 1);
    } else {
        assert(items.take(k) =~= items);
    }
}

impl ReportDescriptor {
    /// Parses a report descriptor.
    pub fn parse(descriptor: &[u8]) -> (r: Result<ReportDescriptor>)
        ensures
            match run(items_of(descriptor@)) {
                Ok(p) => r is Ok && r->Ok_0@ == finished(p),
                Err(m) => r is Err && r->Err_0@ == message(ErrorKind::InvalidParam, m),
            },
    {
        let list = items(descriptor);
        let ghost all = items_of(descriptor@);
        let mut p = Parser::new();
        let mut k: usize = 0;
        assert(all.take(0) =~= Seq::empty());
        while k < list.len()
            invariant
                k <= list@.len(),
                item_views(list@) == all,
                all == items_of(descriptor@),
                p.wf(),
                p.depth <= k,
                run(all.take(k as int)) == Step::Ok(p@),
            decreases list@.len() - k,
        {
            assert(all.take(k + 1).drop_last() =~= all.take(k as int));
            assert(all.take(k + 1).last() == list@[k as int]@);
            assert(run(all.take(k + 1)) == step(p@, list@[k as int]@));
            match p.item(&list[k]) {
                Ok(()) => {},
                Err(e) => {
                    proof {
                        lemma_run_failed(all, k + 1);
                    }
                    return Err(e);
                },
            }
            k += 1;
        }
        assert(all.take(k as int) =~= all);
        Ok(
            ReportDescriptor {
                fields: p.fields,
                application_usages: p.application_usages,
                reports: p.reports,
                uses_ids: p.uses_ids,
            },
        )
    }

    /// `true` if the descriptor declares report IDs, in which case every
    /// report on the wire starts with its ID byte.
    pub fn uses_report_ids(&self) -> (r: bool)
        ensures
            r == self@.uses_ids,
    {
        self.uses_ids
    }

    /// The report IDs declared for a report type (`[0]` when the device does
    /// not use IDs and has reports of that type).
    pub fn report_ids(&self, kind: ReportType) -> (r: Vec<u8>)
        ensures
            r@ == ids_of(self@.reports, kind),
    {
        let mut out: Vec<u8> = Vec::new();
        let mut i: usize = 0;
        assert(self.reports@.take(0) =~= Seq::empty());
        while i < self.reports.len()
            invariant
                i <= self.reports@.len(),
                out@ == ids_of(self.reports@.take(i as int), kind),
            decreases self.reports@.len() - i,
        {
            assert(self.reports@.take(i + 1).drop_last() =~= self.reports@.take(i as int));
            if self.reports[i].0 == kind {
                out.push(self.reports[i].1);
            }
            i += 1;
        }
        assert(self.reports@.take(i as int) =~= self.reports@);
        out
    }

    /// Size in bytes of a report's payload, *excluding* the report ID byte.
    pub fn report_len(&self, kind: ReportType, id: u8) -> (r: Option<usize>)
        ensures
            match payload_len(self@.reports, kind, id) {
                Some(n) => r is Some && r->0 == n,
                None => r is None,
            },
    {
        let at: usize = find_report(&self.reports, kind, id);
        if at < self.reports.len() {
            let bits: u32 = self.reports[at].2;
            let whole: u32 = bits / 8;
            Some(
                if bits % 8 == 0 {
                    whole as usize
                } else {
                    (whole + 1) as usize
                },
            )
        } else {
            None
        }
    }

    /// The fields of one report.
    pub fn report_fields(&self, kind: ReportType, id: u8) -> (r: Vec<&Field>)
        ensures
            r@.len() == fields_of(self@.fields, kind, id).len(),
            forall|i: int| 0 <= i < r@.len() ==> (#[trigger] r@[i])@ == fields_of(self@.fields, kind, id)[i],
    {
        let mut out: Vec<&Field> = Vec::new();
        let mut i: usize = 0;
        let ghost all = self@.fields;
        assert(all.take(0) =~= Seq::empty());
        while i < self.fields.len()
            invariant
                i <= self.fields@.len(),
                all == field_views(self.fields@),
                out@.len() == fields_of(all.take(i as int), kind, id).len(),
                forall|j: int| 0 <= j < out@.len() ==> (#[trigger] out@[j])@ == fields_of(all.take(i as int), kind, id)[j],
            decreases self.fields@.len() - i,
        {
            assert(all.take(i + 1).drop_last() =~= all.take(i as int));
            let f = &self.fields[i];
            assert(all.take(i + 1).last() == f@);
            if f.report_type == kind && f.report_id == id {
                out.push(f);
            }
            i += 1;
        }
        assert(all.take(i as int) =~= all);
        out
    }

    /// Splits a report as read from the device into its ID and payload. When
    /// the device does not use report IDs the ID is 0 and the payload is the
    /// whole report.
    pub fn strip_id<'a>(&self, report: &'a [u8]) -> (r: (u8, &'a [u8]))
        ensures
            self@.uses_ids && report@.len() > 0 ==> r.0 == report@[0] && r.1@ == report@.skip(1),
            !self@.uses_ids || report@.len() == 0 ==> r.0 == 0 && r.1@ == report@,
    {
        if self.uses_ids && report.len() > 0 {
            let rest = slice_subrange(report, 1, report.len());
            assert(rest@ =~= report@.skip(1));
            (report[0], rest)
        } else {
            (0, report)
        }
    }
}

/// The IDs of the reports of one type, in order.
pub open spec fn ids_of(reports: Seq<ReportSize>, kind: ReportType) -> Seq<u8>
    decreases reports.len(),
{
    if reports.len() == 0 {
        Seq::empty()
    } else if reports.last().0 == kind {
        ids_of(reports.drop_last(), kind).push(reports.last().1)
    } else {
        ids_of(reports.drop_last(), kind)
    }
}

/// The size in bytes of a report's payload, if the report is declared.
pub open spec fn payload_len(reports: Seq<ReportSize>, kind: ReportType, id: u8) -> Option<int> {
    let k = report_position(reports, kind, id);
    if k < reports.len() {
        Some((reports[k].2 as int + 7) / 8)
    } else {
        None
    }
}

/// The fields of one report, in order.
pub open spec fn fields_of(fields: Seq<FieldView>, kind: ReportType, id: u8) -> Seq<FieldView>
    decreases fields.len(),
{
    if fields.len() == 0 {
        Seq::empty()
    } else if fields.last().report_type == kind && fields.last().report_id == id {
        fields_of(fields.drop_last(), kind, id).push(fields.last())
    } else {
        fields_of(fields.drop_last(), kind, id)
    }
}

// ----- what every parsed descriptor satisfies ---------------------------------

/// The bit after the last one of a field.
pub open spec fn field_end(f: FieldView) -> int {
    f.bit_offset + f.bit_size * f.count
}

/// Whether two fields are part of the same report.
pub open spec fn same_report(f: FieldView, g: FieldView) -> bool {
    f.report_type == g.report_type && f.report_id == g.report_id
}

/// Whether the fields lie within their reports, in order and without
/// overlap, every report is listed once, and reports have IDs only where the
/// descriptor declares them.
pub open spec fn well_laid_out(d: ReportDescriptorView) -> bool {
    &&& forall|i: int|
        0 <= i < d.fields.len() ==> field_end(#[trigger] d.fields[i]) <= report_bits(
            d.reports,
            d.fields[i].report_type,
            d.fields[i].report_id,
        )
    &&& forall|i: int, j: int|
        0 <= i < j < d.fields.len() && same_report(d.fields[i], d.fields[j]) ==> field_end(#[trigger] d.fields[i]) <= (
        #[trigger] d.fields[j]).bit_offset
    &&& forall|i: int, j: int|
        0 <= i < j < d.reports.len() ==> !((#[trigger] d.reports[i]).0 == (#[trigger] d.reports[j]).0 && d.reports[i].1
            == d.reports[j].1)
    &&& !d.uses_ids ==> forall|i: int| 0 <= i < d.fields.len() ==> (#[trigger] d.fields[i]).report_id == 0
}

/// Whether a report is among the listed ones.
pub open spec fn listed(reports: Seq<ReportSize>, kind: ReportType, id: u8) -> bool {
    report_position(reports, kind, id) < reports.len()
}

/// The bits that some fields take together.
pub open spec fn total_bits(fields: Seq<FieldView>) -> int
    decreases fields.len(),
{
    if fields.len() == 0 {
        0
    } else {
        total_bits(fields.drop_last()) + fields.last().bit_size * fields.last().count
    }
}

/// The IDs of the fields of one type, each once, in order of first
/// appearance.
pub open spec fn first_ids(fields: Seq<FieldView>, kind: ReportType) -> Seq<u8>
    decreases fields.len(),
{
    if fields.len() == 0 {
        Seq::empty()
    } else {
        let before = first_ids(fields.drop_last(), kind);
        if fields.last().report_type == kind && !before.contains(fields.last().report_id) {
            before.push(fields.last().report_id)
        } else {
            before
        }
    }
}

/// Whether the fields of a report follow each other without gaps.
pub open spec fn without_gaps(fields: Seq<FieldView>) -> bool {
    forall|i: int| 0 <= i < fields.len() ==> (#[trigger] fields[i]).bit_offset == total_bits(fields.take(i))
}

/// What parsing keeps besides the layout.
spec fn parse_ok(p: ParseView) -> bool {
    &&& well_laid_out(finished(p))
    &&& !p.uses_ids ==> p.globals.report_id == 0
    &&& !p.uses_ids ==> forall|i: int| 0 <= i < p.stack.len() ==> (#[trigger] p.stack[i]).report_id == 0
}

proof fn lemma_position_found(reports: Seq<ReportSize>, kind: ReportType, id: u8)
    ensures
        0 <= report_position(reports, kind, id) <= reports.len(),
        report_position(reports, kind, id) < reports.len() ==> reports[report_position(reports, kind, id)].0 == kind
            && reports[report_position(reports, kind, id)].1 == id,
        forall|j: int|
            0 <= j < report_position(reports, kind, id) ==> !((#[trigger] reports[j]).0 == kind && reports[j].1 == id),
    decreases reports.len(),
{
    if !(reports.len() == 0 || (reports[0].0 == kind && reports[0].1 == id)) {
        let w = reports.skip(1);
        lemma_position_found(w, kind, id);
        let k = report_position(reports, kind, id);
        if k < reports.len() {
            assert(w[k - 1] == reports[k]);
        }
        assert forall|j: int| 0 <= j < k implies !((#[trigger] reports[j]).0 == kind && reports[j].1 == id) by {
            if j > 0 {
                assert(w[j - 1] == reports[j]);
            }
        }
    }
}

/// Resizing one report changes its own size and no other.
proof fn lemma_with_report_bits(reports: Seq<ReportSize>, kind: ReportType, id: u8, bits: u32, k2: ReportType, id2: u8)
    ensures
        report_bits(with_report_bits(reports, kind, id, bits), k2, id2) == (if k2 == kind && id2 == id {
            bits as int
        } else {
            report_bits(reports, k2, id2)
        }),
        listed(with_report_bits(reports, kind, id, bits), k2, id2) == ((k2 == kind && id2 == id) || listed(
            reports,
            k2,
            id2,
        )),
{
    let after = with_report_bits(reports, kind, id, bits);
    let k = report_position(reports, kind, id);
    lemma_position_found(reports, kind, id);
    lemma_position_found(reports, k2, id2);
    let m = report_position(reports, k2, id2);
    if k2 == kind && id2 == id {
        assert forall|j: int| 0 <= j < k implies !((#[trigger] after[j]).0 == kind && after[j].1 == id) by {
            assert(after[j] == reports[j]);
        }
        lemma_report_position(after, kind, id, k);
    } else if m < reports.len() {
        assert(m != k);
        assert forall|j: int| 0 <= j < m implies !((#[trigger] after[j]).0 == k2 && after[j].1 == id2) by {
            if j != k {
                assert(after[j] == reports[j]);
            }
        }
        assert(after[m] == reports[m]);
        lemma_report_position(after, k2, id2, m);
    } else {
        assert forall|j: int| 0 <= j < after.len() implies !((#[trigger] after[j]).0 == k2 && after[j].1 == id2) by {
            if j != k {
                assert(after[j] == reports[j]);
            }
        }
        lemma_report_position(after, k2, id2, after.len() as int);
    }
}

proof fn lemma_field_step(p: ParseView, item: ItemView)
    requires
        parse_ok(p),
        item.tag == 0x8 || item.tag == 0x9 || item.tag == 0xb,
        main_step(p, item) is Ok,
    ensures
        parse_ok(main_step(p, item)->Ok_0),
{
    let q = main_step(p, item)->Ok_0;
    let kind = field_type(item.tag);
    let id = p.globals.report_id;
    let f = declared_field(p, item);
    let old_bits = report_bits(p.reports, kind, id);
    let size = p.globals.report_size * p.globals.report_count;
    assert(size >= 0) by (nonlinear_arith)
        requires
            size == p.globals.report_size * p.globals.report_count,
    ;
    let end = (old_bits + size) as u32;
    lemma_position_found(p.reports, kind, id);
    assert(f.bit_offset == old_bits);
    assert(field_end(f) == end);
    lemma_with_report_bits(p.reports, kind, id, end, kind, id);
    assert forall|i: int| 0 <= i < q.fields.len() implies field_end(#[trigger] q.fields[i]) <= report_bits(
        q.reports,
        q.fields[i].report_type,
        q.fields[i].report_id,
    ) by {
        if i < p.fields.len() {
            assert(q.fields[i] == p.fields[i]);
            lemma_with_report_bits(p.reports, kind, id, end, q.fields[i].report_type, q.fields[i].report_id);
        }
    }
    assert forall|i: int, j: int|
        0 <= i < j < q.fields.len() && same_report(q.fields[i], q.fields[j]) implies field_end(#[trigger] q.fields[i]) <= (
    #[trigger] q.fields[j]).bit_offset by {
        assert(q.fields[i] == p.fields[i]);
        if j < p.fields.len() {
            assert(q.fields[j] == p.fields[j]);
        }
    }
    let k = report_position(p.reports, kind, id);
    assert(q.reports == with_report_bits(p.reports, kind, id, end));
    assert forall|i: int, j: int| 0 <= i < j < q.reports.len() implies !((#[trigger] q.reports[i]).0 == (
    #[trigger] q.reports[j]).0 && q.reports[i].1 == q.reports[j].1) by {
        assert(i < p.reports.len());
        assert(q.reports[i].0 == p.reports[i].0 && q.reports[i].1 == p.reports[i].1);
        if j < p.reports.len() {
            assert(q.reports[j].0 == p.reports[j].0 && q.reports[j].1 == p.reports[j].1);
            assert(finished(p).reports[i] == p.reports[i] && finished(p).reports[j] == p.reports[j]);
        } else {
            assert(k == p.reports.len() && j == k);
        }
    }
    assert forall|i: int| !q.uses_ids && 0 <= i < q.fields.len() implies (#[trigger] q.fields[i]).report_id == 0 by {
        if i < p.fields.len() {
            assert(q.fields[i] == p.fields[i]);
        }
    }
}

proof fn lemma_run_ok(items: Seq<ItemView>)
    requires
        run(items) is Ok,
    ensures
        parse_ok(run(items)->Ok_0),
    decreases items.len(),
{
    if items.len() > 0 {
        lemma_run_ok(items.drop_last());
        let p = run(items.drop_last())->Ok_0;
        let item = items.last();
        let q = run(items)->Ok_0;
        match item.kind {
            ItemType::Main => {
                if item.tag == 0x8 || item.tag == 0x9 || item.tag == 0xb {
                    lemma_field_step(p, item);
                } else {
                    assert(finished(q).fields == finished(p).fields && finished(q).reports == finished(p).reports);
                }
            },
            ItemType::Global => {
                assert(finished(q).fields == finished(p).fields && finished(q).reports == finished(p).reports);
            },
            _ => {},
        }
    }
}

/// In a parsed report descriptor the fields of a report lie within it, in
/// order and without overlap; each report is listed once; and without
/// declared report IDs every field's ID is 0.
pub proof fn lemma_parsed_layout(descriptor: Seq<u8>)
    requires
        run(items_of(descriptor)) is Ok,
    ensures
        well_laid_out(finished(run(items_of(descriptor))->Ok_0)),
{
    lemma_run_ok(items_of(descriptor));
}

/// Every element of every field (of 1 to 32 bits) can be read from a report
/// of the declared size.
pub proof fn lemma_declared_values_present(descriptor: Seq<u8>, i: int, report: Seq<u8>, index: u32)
    requires
        run(items_of(descriptor)) is Ok,
        0 <= i < run(items_of(descriptor))->Ok_0.fields.len(),
        ({
            let d = finished(run(items_of(descriptor))->Ok_0);
            let f = d.fields[i];
            &&& 0 < f.bit_size <= 32
            &&& index < f.count
            &&& payload_len(d.reports, f.report_type, f.report_id) == Some(report.len() as int)
        }),
    ensures
        field_value(run(items_of(descriptor))->Ok_0.fields[i], report, index) is Some,
{
    lemma_parsed_layout(descriptor);
    let d = finished(run(items_of(descriptor))->Ok_0);
    let f = d.fields[i];
    assert(field_end(f) <= report_bits(d.reports, f.report_type, f.report_id));
    assert(index * f.bit_size + f.bit_size <= f.bit_size * f.count) by (nonlinear_arith)
        requires
            index < f.count,
            0 < f.bit_size,
    ;
}

proof fn lemma_ids_listed(reports: Seq<ReportSize>, kind: ReportType, id: u8)
    ensures
        ids_of(reports, kind).contains(id) <==> exists|j: int|
            0 <= j < reports.len() && (#[trigger] reports[j]).0 == kind && reports[j].1 == id,
        ids_of(reports, kind).contains(id) == listed(reports, kind, id),
    decreases reports.len(),
{
    lemma_position_found(reports, kind, id);
    if reports.len() > 0 {
        let w = reports.drop_last();
        lemma_ids_listed(w, kind, id);
        let before = ids_of(w, kind);
        let x = reports.last();
        if x.0 == kind {
            assert(before.push(x.1)[before.len() as int] == x.1);
            assert forall|v: u8| before.contains(v) implies #[trigger] before.push(x.1).contains(v) by {
                let k = choose|k: int| 0 <= k < before.len() && before[k] == v;
                assert(before.push(x.1)[k] == v);
            }
        }
        if ids_of(w, kind).contains(id) {
            let j = choose|j: int| 0 <= j < w.len() && (#[trigger] w[j]).0 == kind && w[j].1 == id;
            assert(reports[j] == w[j]);
        }
        assert forall|j: int| 0 <= j < reports.len() && (#[trigger] reports[j]).0 == kind && reports[j].1 == id implies ids_of(
            reports,
            kind,
        ).contains(id) by {
            if j < w.len() {
                assert(w[j] == reports[j]);
            }
        }
    }
}

/// Resizing a listed report leaves the IDs as they are.
proof fn lemma_ids_resized(reports: Seq<ReportSize>, k: int, bits: u32, kind: ReportType)
    requires
        0 <= k < reports.len(),
    ensures
        ids_of(reports.update(k, (reports[k].0, reports[k].1, bits)), kind) == ids_of(reports, kind),
    decreases reports.len(),
{
    let after = reports.update(k, (reports[k].0, reports[k].1, bits));
    let w = reports.drop_last();
    if k < w.len() {
        lemma_ids_resized(w, k, bits, kind);
        assert(after.drop_last() =~= w.update(k, (w[k].0, w[k].1, bits)));
    } else {
        assert(after.drop_last() =~= w);
    }
}

/// What the listed reports have to do with the fields.
spec fn adds_up(p: ParseView, kind: ReportType, id: u8) -> bool {
    let f = fields_of(p.fields, kind, id);
    &&& report_bits(p.reports, kind, id) == total_bits(f)
    &&& listed(p.reports, kind, id) == (f.len() > 0)
    &&& without_gaps(f)
    &&& ids_of(p.reports, kind) == first_ids(p.fields, kind)
}

proof fn lemma_field_adds_up(p: ParseView, item: ItemView, kind: ReportType, id: u8)
    requires
        adds_up(p, kind, id),
        item.tag == 0x8 || item.tag == 0x9 || item.tag == 0xb,
        main_step(p, item) is Ok,
    ensures
        adds_up(main_step(p, item)->Ok_0, kind, id),
{
    let q = main_step(p, item)->Ok_0;
    let k0 = field_type(item.tag);
    let id0 = p.globals.report_id;
    let f = declared_field(p, item);
    let size = p.globals.report_size * p.globals.report_count;
    assert(size >= 0) by (nonlinear_arith)
        requires
            size == p.globals.report_size * p.globals.report_count,
    ;
    let at = report_position(p.reports, k0, id0);
    lemma_position_found(p.reports, k0, id0);
    let end = (report_bits(p.reports, k0, id0) + size) as u32;
    assert(q.reports == with_report_bits(p.reports, k0, id0, end));
    lemma_with_report_bits(p.reports, k0, id0, end, kind, id);
    assert(q.fields.drop_last() =~= p.fields);
    let before = fields_of(p.fields, kind, id);
    let after = fields_of(q.fields, kind, id);
    if k0 == kind && id0 == id {
        assert(after == before.push(f));
        assert(after.drop_last() =~= before);
        assert forall|i: int| 0 <= i < after.len() implies (#[trigger] after[i]).bit_offset == total_bits(after.take(i)) by {
            assert(after.take(i) =~= before.take(i));
            if i < before.len() {
                assert(after[i] == before[i]);
            } else {
                assert(before.take(i) =~= before);
            }
        }
    } else {
        assert(after == before);
    }
    lemma_ids_listed(p.reports, kind, id0);
    if at < p.reports.len() {
        lemma_ids_resized(p.reports, at, end, kind);
    } else {
        assert(q.reports.drop_last() =~= p.reports);
    }
}

proof fn lemma_run_adds_up(items: Seq<ItemView>, kind: ReportType, id: u8)
    requires
        run(items) is Ok,
    ensures
        adds_up(run(items)->Ok_0, kind, id),
    decreases items.len(),
{
    if items.len() > 0 {
        lemma_run_adds_up(items.drop_last(), kind, id);
        let p = run(items.drop_last())->Ok_0;
        let item = items.last();
        let q = run(items)->Ok_0;
        if item.kind == ItemType::Main && (item.tag == 0x8 || item.tag == 0x9 || item.tag == 0xb) {
            lemma_field_adds_up(p, item, kind, id);
        } else {
            assert(q.fields == p.fields && q.reports == p.reports);
        }
    }
}

proof fn lemma_first_ids(fields: Seq<FieldView>, kind: ReportType)
    ensures
        first_ids(fields, kind).no_duplicates(),
        forall|id: u8|
            first_ids(fields, kind).contains(id) <==> exists|i: int|
                0 <= i < fields.len() && (#[trigger] fields[i]).report_type == kind && fields[i].report_id == id,
    decreases fields.len(),
{
    if fields.len() > 0 {
        let w = fields.drop_last();
        lemma_first_ids(w, kind);
        let before = first_ids(w, kind);
        let x = fields.last();
        let ids = first_ids(fields, kind);
        assert(x.report_type == kind && !before.contains(x.report_id) ==> ids == before.push(x.report_id)
            && ids[before.len() as int] == x.report_id);
        assert forall|id: u8| ids.contains(id) implies exists|i: int|
            0 <= i < fields.len() && (#[trigger] fields[i]).report_type == kind && fields[i].report_id == id by {
            let k = choose|k: int| 0 <= k < ids.len() && ids[k] == id;
            if k < before.len() {
                assert(before[k] == id);
                assert(before.contains(id));
                let i = choose|i: int|
                    0 <= i < w.len() && (#[trigger] w[i]).report_type == kind && w[i].report_id == id;
                assert(fields[i] == w[i]);
            } else {
                assert(fields[fields.len() - 1] == x);
            }
        }
        assert forall|id: u8, i: int|
            0 <= i < fields.len() && (#[trigger] fields[i]).report_type == kind && fields[i].report_id == id implies #[trigger] ids.contains(
            id,
        ) by {
            if i < w.len() {
                assert(w[i] == fields[i]);
                assert(before.contains(id));
            }
            if before.contains(id) {
                let k = choose|k: int| 0 <= k < before.len() && before[k] == id;
                assert(ids[k] == id);
            }
        }
    }
}

/// The report IDs of a parsed descriptor are those of its fields of that
/// type, each once, in order of first appearance; without declared IDs that
/// is a single 0, or nothing if there is no such field.
pub proof fn lemma_report_ids_are_the_fields(descriptor: Seq<u8>, kind: ReportType)
    requires
        run(items_of(descriptor)) is Ok,
    ensures
        ({
            let d = finished(run(items_of(descriptor))->Ok_0);
            let ids = ids_of(d.reports, kind);
            &&& ids == first_ids(d.fields, kind)
            &&& ids.no_duplicates()
            &&& forall|id: u8|
                ids.contains(id) <==> exists|i: int|
                    0 <= i < d.fields.len() && (#[trigger] d.fields[i]).report_type == kind && d.fields[i].report_id == id
            &&& !d.uses_ids ==> ids == (if exists|i: int|
                0 <= i < d.fields.len() && (#[trigger] d.fields[i]).report_type == kind {
                seq![0u8]
            } else {
                Seq::<u8>::empty()
            })
        }),
{
    let d = finished(run(items_of(descriptor))->Ok_0);
    let ids = ids_of(d.reports, kind);
    lemma_run_adds_up(items_of(descriptor), kind, 0);
    lemma_first_ids(d.fields, kind);
    lemma_parsed_layout(descriptor);
    if !d.uses_ids {
        if exists|i: int| 0 <= i < d.fields.len() && (#[trigger] d.fields[i]).report_type == kind {
            let i = choose|i: int| 0 <= i < d.fields.len() && (#[trigger] d.fields[i]).report_type == kind;
            assert(d.fields[i].report_id == 0);
            assert(ids.contains(0));
        }
        assert forall|k: int| 0 <= k < ids.len() implies ids[k] == 0 by {
            assert(ids.contains(ids[k]));
        }
        if ids.len() > 1 {
            assert(ids[0] == ids[1]);
        }
        if ids.len() == 1 {
            assert(ids.contains(ids[0]));
        }
        assert(ids =~= (if exists|i: int| 0 <= i < d.fields.len() && (#[trigger] d.fields[i]).report_type == kind {
            seq![0u8]
        } else {
            Seq::<u8>::empty()
        }));
    }
}

/// The sizes of the first fields never exceed that of all.
proof fn lemma_total_bits_grow(fields: Seq<FieldView>, i: int)
    requires
        0 <= i <= fields.len(),
    ensures
        0 <= total_bits(fields.take(i)) <= total_bits(fields),
        i < fields.len() ==> total_bits(fields.take(i)) + fields[i].bit_size * fields[i].count <= total_bits(fields),
    decreases fields.len(),
{
    if fields.len() > 0 {
        let w = fields.drop_last();
        let x = fields.last();
        assert(x.bit_size * x.count >= 0) by (nonlinear_arith);
        if i < fields.len() {
            lemma_total_bits_grow(w, i);
            assert(w.take(i) =~= fields.take(i));
            if i == w.len() {
                assert(w.take(i) =~= w);
            }
        } else {
            lemma_total_bits_grow(w, w.len() as int);
            assert(w.take(w.len() as int) =~= w);
            assert(fields.take(i) =~= fields);
        }
    } else {
        assert(fields.take(i) =~= fields);
    }
}

/// Some element ends where the fields end, if they take any bits.
proof fn lemma_last_element(fields: Seq<FieldView>) -> (r: (int, u32))
    requires
        without_gaps(fields),
        total_bits(fields) > 0,
    ensures
        0 <= r.0 < fields.len(),
        r.1 < fields[r.0].count,
        element_start(fields[r.0], r.1) + fields[r.0].bit_size == total_bits(fields),
    decreases fields.len(),
{
    let w = fields.drop_last();
    let x = fields.last();
    let n = fields.len() - 1;
    assert(fields.take(n) =~= w);
    assert(fields[n].bit_offset == total_bits(w));
    if x.bit_size * x.count == 0 {
        assert forall|i: int| 0 <= i < w.len() implies (#[trigger] w[i]).bit_offset == total_bits(w.take(i)) by {
            assert(w[i] == fields[i]);
            assert(w.take(i) =~= fields.take(i));
        }
        let r = lemma_last_element(w);
        assert(w[r.0] == fields[r.0]);
        r
    } else {
        assert(x.count > 0) by (nonlinear_arith)
            requires
                x.bit_size * x.count != 0,
        ;
        let last = (x.count - 1) as u32;
        assert(last * x.bit_size + x.bit_size == x.bit_size * x.count) by (nonlinear_arith)
            requires
                last == x.count - 1,
        ;
        (n, last)
    }
}

/// A parsed descriptor has a report if and only if it has a field of that
/// type and ID. The fields of a report follow each other without gaps, and
/// its payload is their bits together, rounded up to whole bytes: it holds
/// every element of every field, and one byte less would not.
pub proof fn lemma_report_len_is_exact(descriptor: Seq<u8>, kind: ReportType, id: u8)
    requires
        run(items_of(descriptor)) is Ok,
    ensures
        ({
            let d = finished(run(items_of(descriptor))->Ok_0);
            let f = fields_of(d.fields, kind, id);
            let n = payload_len(d.reports, kind, id);
            &&& n is None <==> f.len() == 0
            &&& without_gaps(f)
            &&& f.len() > 0 ==> n == Some((total_bits(f) + 7) / 8)
            &&& forall|i: int, index: u32|
                0 <= i < f.len() && index < f[i].count ==> #[trigger] element_start(f[i], index) + f[i].bit_size <= 8
                    * n->0
            &&& f.len() > 0 && n->0 > 0 ==> exists|i: int, index: u32|
                0 <= i < f.len() && index < f[i].count && #[trigger] element_start(f[i], index) + f[i].bit_size > 8 * (
                n->0 - 1)
        }),
{
    let d = finished(run(items_of(descriptor))->Ok_0);
    let f = fields_of(d.fields, kind, id);
    let n = payload_len(d.reports, kind, id);
    lemma_run_adds_up(items_of(descriptor), kind, id);
    lemma_position_found(d.reports, kind, id);
    assert forall|i: int, index: u32| 0 <= i < f.len() && index < f[i].count implies #[trigger] element_start(f[i], index)
        + f[i].bit_size <= 8 * n->0 by {
        lemma_total_bits_grow(f, i);
        let x = f[i];
        assert(x.bit_offset == total_bits(f.take(i)));
        assert(index * x.bit_size + x.bit_size <= x.bit_size * x.count) by (nonlinear_arith)
            requires
                index < x.count,
        ;
    }
    if f.len() > 0 && n->0 > 0 {
        let (i, index) = lemma_last_element(f);
        assert(element_start(f[i], index) + f[i].bit_size > 8 * (n->0 - 1));
    }
}

/// Why an item cannot be parsed in a given state, if it cannot: a report ID
/// that is not a byte or is 0, a Pop or an End Collection that nothing
/// answers, or a field that takes its report beyond 32 bits of size.
pub open spec fn item_error(p: ParseView, item: ItemView) -> Option<Seq<char>> {
    let g = p.globals;
    let u = unsigned_value(item.data);
    match item.kind {
        ItemType::Global => if item.tag == 0x8 && (u == 0 || u > 255) {
            Some("report ID out of range"@)
        } else if item.tag == 0xb && p.stack.len() == 0 {
            Some("Pop without Push"@)
        } else {
            None
        },
        ItemType::Main => if (item.tag == 0x8 || item.tag == 0x9 || item.tag == 0xb) && report_bits(
            p.reports,
            field_type(item.tag),
            g.report_id,
        ) + g.report_size * g.report_count > u32::MAX {
            Some("report too large"@)
        } else if item.tag == 0xc && p.depth == 0 {
            Some("End Collection without Collection"@)
        } else {
            None
        },
        _ => None,
    }
}

/// Collections that are open after some items.
pub open spec fn open_collections(items: Seq<ItemView>) -> int
    decreases items.len(),
{
    if items.len() == 0 {
        0
    } else {
        let item = items.last();
        open_collections(items.drop_last()) + (if item.kind == ItemType::Main && item.tag == 0xa {
            1int
        } else if item.kind == ItemType::Main && item.tag == 0xc {
            -1
        } else {
            0
        })
    }
}

/// Pushes that were not popped after some items.
pub open spec fn open_pushes(items: Seq<ItemView>) -> int
    decreases items.len(),
{
    if items.len() == 0 {
        0
    } else {
        let item = items.last();
        open_pushes(items.drop_last()) + (if item.kind == ItemType::Global && item.tag == 0xa {
            1int
        } else if item.kind == ItemType::Global && item.tag == 0xb {
            -1
        } else {
            0
        })
    }
}

proof fn lemma_run_is_balanced(items: Seq<ItemView>)
    requires
        run(items) is Ok,
    ensures
        run(items)->Ok_0.depth == open_collections(items),
        run(items)->Ok_0.stack.len() == open_pushes(items),
    decreases items.len(),
{
    if items.len() > 0 {
        lemma_run_is_balanced(items.drop_last());
    }
}

/// Whether parsing gets to an item and fails there for the given reason.
pub open spec fn fails_at(items: Seq<ItemView>, k: int, why: Seq<char>) -> bool {
    &&& 0 <= k < items.len()
    &&& run(items.take(k)) is Ok
    &&& item_error(run(items.take(k))->Ok_0, items[k]) == Some(why)
}

proof fn lemma_run_fails(items: Seq<ItemView>)
    ensures
        run(items) matches Err(why) ==> exists|k: int| fails_at(items, k, why),
    decreases items.len(),
{
    if items.len() > 0 && run(items) is Err {
        let w = items.drop_last();
        let why = run(items)->Err_0;
        let n = w.len() as int;
        assert(items.take(n) =~= w);
        if run(w) is Err {
            lemma_run_fails(w);
            let k = choose|k: int| fails_at(w, k, why);
            assert(items.take(k) =~= w.take(k));
            assert(items[k] == w[k]);
            assert(fails_at(items, k, why));
        } else {
            assert(items[n] == items.last());
            assert(fails_at(items, n, why));
        }
    }
}

/// Parsing a descriptor fails exactly if it gets to an item that cannot be
/// parsed, and fails with the reason of that item. By then as many collections
/// are open, and as many states pushed, as the items before it opened and
/// pushed without closing and popping them.
pub proof fn lemma_when_parsing_fails(descriptor: Seq<u8>, k: int, why: Seq<char>)
    ensures
        run(items_of(descriptor)) is Err <==> exists|j: int, m: Seq<char>| fails_at(items_of(descriptor), j, m),
        fails_at(items_of(descriptor), k, why) ==> run(items_of(descriptor)) == Step::Err(why),
        fails_at(items_of(descriptor), k, why) ==> run(items_of(descriptor).take(k))->Ok_0.depth == open_collections(
            items_of(descriptor).take(k),
        ) && run(items_of(descriptor).take(k))->Ok_0.stack.len() == open_pushes(items_of(descriptor).take(k)),
{
    let items = items_of(descriptor);
    lemma_run_fails(items);
    if run(items) is Err {
        let j = choose|j: int| fails_at(items, j, run(items)->Err_0);
        assert(fails_at(items, j, run(items)->Err_0));
    }
    assert forall|j: int, m: Seq<char>| fails_at(items, j, m) implies run(items) == Step::Err(m) by {
        lemma_stops_at(items, j, m);
    }
    if fails_at(items, k, why) {
        lemma_run_is_balanced(items.take(k));
    }
}

proof fn lemma_stops_at(items: Seq<ItemView>, k: int, why: Seq<char>)
    requires
        fails_at(items, k, why),
    ensures
        run(items) == Step::Err(why),
{
    let p = run(items.take(k))->Ok_0;
    assert(items.take(k + 1).drop_last() =~= items.take(k));
    assert(items.take(k + 1).last() == items[k]);
    assert(step(p, items[k]) == Step::Err(why));
    lemma_run_failed(items, k + 1);
}

/// Whether an item declares a report ID.
pub open spec fn is_report_id(item: ItemView) -> bool {
    item.kind == ItemType::Global && item.tag == 0x8
}

proof fn lemma_run_uses_ids(items: Seq<ItemView>)
    requires
        run(items) is Ok,
    ensures
        run(items)->Ok_0.uses_ids <==> exists|k: int| 0 <= k < items.len() && is_report_id(#[trigger] items[k]),
    decreases items.len(),
{
    if items.len() > 0 {
        let w = items.drop_last();
        lemma_run_uses_ids(w);
        assert(items[items.len() - 1] == items.last());
        if run(w)->Ok_0.uses_ids {
            let k = choose|k: int| 0 <= k < w.len() && is_report_id(#[trigger] w[k]);
            assert(items[k] == w[k]);
        }
        assert forall|k: int| 0 <= k < items.len() && is_report_id(#[trigger] items[k]) implies run(items)->Ok_0.uses_ids by {
            if k < w.len() {
                assert(w[k] == items[k]);
            }
        }
    }
}

/// A parsed descriptor uses report IDs exactly if it has a Report ID item.
pub proof fn lemma_report_ids_are_declared(descriptor: Seq<u8>)
    requires
        run(items_of(descriptor)) is Ok,
    ensures
        finished(run(items_of(descriptor))->Ok_0).uses_ids <==> exists|k: int|
            0 <= k < items_of(descriptor).len() && is_report_id(#[trigger] items_of(descriptor)[k]),
{
    lemma_run_uses_ids(items_of(descriptor));
}

/// A main item uses up the local items before it; at the start there are none.
pub proof fn lemma_main_items_end_locals(items: Seq<ItemView>)
    requires
        run(items) is Ok,
        items.len() == 0 || items.last().kind == ItemType::Main,
    ensures
        run(items)->Ok_0.usages.len() == 0,
        run(items)->Ok_0.usage_min is None,
        run(items)->Ok_0.usage_max is None,
{
}

proof fn lemma_usages_collect(head: Seq<ItemView>, usages: Seq<ItemView>)
    requires
        run(head) is Ok,
        run(head)->Ok_0.usages.len() == 0,
        forall|k: int| 0 <= k < usages.len() ==> (#[trigger] usages[k]).kind == ItemType::Local && usages[k].tag == 0,
    ensures
        run(head + usages) is Ok,
        ({
            let p = run(head)->Ok_0;
            let q = run(head + usages)->Ok_0;
            &&& q == (ParseView { usages: q.usages, ..p })
            &&& q.usages.len() == usages.len()
            &&& forall|k: int|
                0 <= k < usages.len() ==> #[trigger] q.usages[k] == (le32_at(usages[k].data, 0), usages[k].data.len() == 4)
        }),
    decreases usages.len(),
{
    if usages.len() == 0 {
        assert(head + usages =~= head);
    } else {
        let w = usages.drop_last();
        assert forall|k: int| 0 <= k < w.len() implies (#[trigger] w[k]).kind == ItemType::Local && w[k].tag == 0 by {
            assert(w[k] == usages[k]);
        }
        assert(usages[usages.len() - 1].kind == ItemType::Local);
        lemma_usages_collect(head, w);
        assert((head + usages).drop_last() =~= head + w);
        let q = run(head + usages)->Ok_0;
        assert forall|k: int| 0 <= k < usages.len() implies #[trigger] q.usages[k] == (
            le32_at(usages[k].data, 0),
            usages[k].data.len() == 4,
        ) by {
            if k < w.len() {
                assert(w[k] == usages[k]);
            }
        }
    }
}

/// Usages name the elements of a field in order: element i has the i-th usage
/// that was declared for the field, and each element behind the last usage has
/// the last. A usage of four bytes is complete, a shorter one is on the usage
/// page in force.
pub proof fn lemma_usages_name_elements(head: Seq<ItemView>, usages: Seq<ItemView>, main: ItemView, i: int)
    requires
        run(head) is Ok,
        head.len() == 0 || head.last().kind == ItemType::Main,
        usages.len() > 0,
        forall|k: int| 0 <= k < usages.len() ==> (#[trigger] usages[k]).kind == ItemType::Local && usages[k].tag == 0,
        main.kind == ItemType::Main,
        main.tag == 8 || main.tag == 9 || main.tag == 0xb,
        run((head + usages).push(main)) is Ok,
        0 <= i,
    ensures
        ({
            let p = run(head)->Ok_0;
            let q = run((head + usages).push(main))->Ok_0;
            let data = if i < usages.len() {
                usages[i].data
            } else {
                usages.last().data
            };
            let u = usage_at(q.fields.last().usages, i);
            &&& q.fields.len() == p.fields.len() + 1
            &&& p.fields.is_prefix_of(q.fields)
            &&& u is Some
            &&& data.len() == 4 ==> (u->0).0 == le32_at(data, 0)
            &&& data.len() < 4 ==> (u->0).0 == 65536 * p.globals.usage_page + le32_at(data, 0) % 65536
        }),
{
    lemma_main_items_end_locals(head);
    lemma_usages_collect(head, usages);
    assert((head + usages).push(main).drop_last() =~= head + usages);
}

/// In an array field a value selects a usage: the lowest value the first one
/// that was declared, the next value the next, and a value out of range or
/// behind the last usage none.
pub proof fn lemma_values_select_usages(f: FieldView, value: int)
    ensures
        value < f.logical_min || value > f.logical_max ==> selected_usage(f, value) is None,
        f.logical_min <= value <= f.logical_max && f.usages is List ==> {
            let v = f.usages->List_0;
            &&& value - f.logical_min < v.len() ==> selected_usage(f, value) == Some(v[value - f.logical_min])
            &&& value - f.logical_min >= v.len() ==> selected_usage(f, value) is None
        },
        f.logical_min <= value <= f.logical_max && f.usages is Range ==> {
            let u = f.usages->Range_0.0 + (value - f.logical_min);
            &&& u <= f.usages->Range_1.0 ==> selected_usage(f, value) == Some(Usage(u as u32))
            &&& u > f.usages->Range_1.0 ==> selected_usage(f, value) is None
        },
{
}

/// A usage range names the elements of a field one by one from its minimum,
/// up to its maximum and no further.
pub proof fn lemma_usage_range_names_elements(
    head: Seq<ItemView>,
    low: ItemView,
    high: ItemView,
    main: ItemView,
    i: int,
)
    requires
        run(head) is Ok,
        head.len() == 0 || head.last().kind == ItemType::Main,
        low.kind == ItemType::Local && low.tag == 1,
        high.kind == ItemType::Local && high.tag == 2,
        low.data.len() <= 2,
        high.data.len() <= 2,
        main.kind == ItemType::Main,
        main.tag == 8 || main.tag == 9 || main.tag == 0xb,
        run(head.push(low).push(high).push(main)) is Ok,
        0 <= i,
    ensures
        ({
            let page = run(head)->Ok_0.globals.usage_page;
            let q = run(head.push(low).push(high).push(main))->Ok_0;
            let u = usage_at(q.fields.last().usages, i);
            let n = le32_at(low.data, 0) + i;
            &&& n <= le32_at(high.data, 0) ==> u is Some && (u->0).0 == 65536 * page + n
            &&& n > le32_at(high.data, 0) ==> u is None
        }),
{
    lemma_main_items_end_locals(head);
    let a = head.push(low);
    let b = a.push(high);
    assert(a.drop_last() =~= head);
    assert(b.drop_last() =~= a);
    assert(b.push(main).drop_last() =~= b);
    let lo = le32_at(low.data, 0);
    let hi = le32_at(high.data, 0);
    assert(lo < 65536);
    assert(hi < 65536);
    let p = run(b)->Ok_0;
    let page = run(head)->Ok_0.globals.usage_page;
    let o = run(head)->Ok_0;
    assert(a.last() == low);
    assert(b.last() == high);
    assert(run(a) == Step::Ok(ParseView { usage_min: Some((lo, false)), ..o }));
    assert(p.usage_min == Some((lo, false)));
    assert(p.usage_max == Some((hi, false)));
    assert(resolved(page, (lo, false)).0 == 65536 * page + lo);
    assert(resolved(page, (hi, false)).0 == 65536 * page + hi);
    assert(run(b.push(main))->Ok_0.fields.last().usages == field_usages(p));
}

/// A short item is a prefix, whose two lowest bits say how much data follows
/// (3 meaning four bytes), the next two its type and the four highest its tag;
/// then comes the data, and then the next item.
pub proof fn lemma_short_items(prefix: u8, data: Seq<u8>, rest: Seq<u8>)
    requires
        prefix != 0xfe,
        data.len() == (if prefix % 4 == 3 { 4int } else { prefix as int % 4 }),
    ensures
        ({
            let items = items_of(seq![prefix] + data + rest);
            &&& items.len() == 1 + items_of(rest).len()
            &&& items.skip(1) == items_of(rest)
            &&& items[0].data == data
            &&& items[0].tag == prefix / 16
            &&& items[0].kind == ItemType::Main <==> prefix / 4 % 4 == 0
            &&& items[0].kind == ItemType::Global <==> prefix / 4 % 4 == 1
            &&& items[0].kind == ItemType::Local <==> prefix / 4 % 4 == 2
            &&& items[0].kind == ItemType::Reserved <==> prefix / 4 % 4 == 3
        }),
{
    let b = seq![prefix] + data + rest;
    assert(b[0] == prefix);
    assert(item_size(b) == 1 + data.len());
    assert(b.skip(1 + data.len() as int) =~= rest);
    assert(b.subrange(1, 1 + data.len() as int) =~= data);
    assert(items_of(b).skip(1) =~= items_of(rest));
}

/// A long item is 0xfe, the length of its data, its tag and the data; it is
/// passed over.
pub proof fn lemma_long_items(tag: u8, data: Seq<u8>, rest: Seq<u8>)
    requires
        data.len() <= 255,
    ensures
        ({
            let items = items_of(seq![0xfeu8, data.len() as u8, tag] + data + rest);
            &&& items.len() == 1 + items_of(rest).len()
            &&& items.skip(1) == items_of(rest)
            &&& items[0] == (ItemView { kind: ItemType::Reserved, tag, data })
        }),
        items_of(Seq::empty()).len() == 0,
{
    let b = seq![0xfeu8, data.len() as u8, tag] + data + rest;
    assert(b[0] == 0xfe && b[1] == data.len() && b[2] == tag);
    assert(item_size(b) == 3 + data.len());
    assert(b.skip(3 + data.len() as int) =~= rest);
    assert(b.subrange(3, 3 + data.len() as int) =~= data);
    assert(items_of(b).skip(1) =~= items_of(rest));
}

/// Numbers in items are little-endian; a signed one is negative where the
/// highest bit of its highest byte is set.
pub proof fn lemma_item_numbers(a: u8, b: u8, c: u8, d: u8)
    ensures
        unsigned_value(Seq::empty()) == 0,
        signed_value(Seq::empty()) == 0,
        unsigned_value(seq![a]) == a,
        signed_value(seq![a]) == (if a >= 0x80 { a - 0x100 } else { a as int }),
        unsigned_value(seq![a, b]) == a + 0x100 * b,
        signed_value(seq![a, b]) == a + 0x100 * b - (if b >= 0x80 { 0x1_0000int } else { 0 }),
        unsigned_value(seq![a, b, c]) == a + 0x100 * b + 0x1_0000 * c,
        signed_value(seq![a, b, c]) == a + 0x100 * b + 0x1_0000 * c - (if c >= 0x80 { 0x100_0000int } else { 0 }),
        unsigned_value(seq![a, b, c, d]) == a + 0x100 * b + 0x1_0000 * c + 0x100_0000 * d,
        signed_value(seq![a, b, c, d]) == a + 0x100 * b + 0x1_0000 * c + 0x100_0000 * d - (if d >= 0x80 {
            0x1_0000_0000int
        } else {
            0
        }),
{
}

/// What each global item sets, by its tag; nothing else changes.
pub proof fn lemma_global_items(p: ParseView, item: ItemView)
    requires
        item.kind == ItemType::Global,
        item.tag <= 9,
        item.tag == 8 ==> 1 <= unsigned_value(item.data) <= 255,
    ensures
        ({
            let q = step(p, item)->Ok_0;
            let g = p.globals;
            let h = q.globals;
            let u = unsigned_value(item.data);
            let s = signed_value(item.data);
            &&& step(p, item) is Ok
            &&& q == (ParseView { globals: h, uses_ids: q.uses_ids, ..p })
            &&& q.uses_ids == (p.uses_ids || item.tag == 8)
            &&& h.usage_page == if item.tag == 0 { (u % 65536) as u16 } else { g.usage_page }
            &&& h.logical_min == if item.tag == 1 { s as i64 } else { g.logical_min }
            &&& h.logical_max == if item.tag == 2 { s as i64 } else { g.logical_max }
            &&& h.physical_min == if item.tag == 3 { s as i64 } else { g.physical_min }
            &&& h.physical_max == if item.tag == 4 { s as i64 } else { g.physical_max }
            &&& h.unit_exponent == if item.tag == 5 { s as i32 } else { g.unit_exponent }
            &&& h.unit == if item.tag == 6 { u } else { g.unit }
            &&& h.report_size == if item.tag == 7 { u } else { g.report_size }
            &&& h.report_id == if item.tag == 8 { u as u8 } else { g.report_id }
            &&& h.report_count == if item.tag == 9 { u } else { g.report_count }
        }),
{
}

/// A pop brings back the globals of the push that it belongs to.
pub proof fn lemma_pop_undoes_push(p: ParseView, push: ItemView, change: ItemView, pop: ItemView)
    requires
        push.kind == ItemType::Global && push.tag == 0xa,
        pop.kind == ItemType::Global && pop.tag == 0xb,
        change.kind == ItemType::Global && change.tag < 8,
    ensures
        ({
            let a = step(p, push)->Ok_0;
            let b = step(a, change)->Ok_0;
            &&& step(p, push) is Ok
            &&& step(b, pop) == Step::Ok(p)
        }),
{
    assert(p.stack.push(p.globals).drop_last() =~= p.stack);
}

/// What a field takes from the items before it: kind from the tag, position
/// behind the fields of its report so far, and the rest from the globals.
pub proof fn lemma_declared_fields(p: ParseView, item: ItemView)
    requires
        item.kind == ItemType::Main,
        item.tag == 8 || item.tag == 9 || item.tag == 0xb,
        step(p, item) is Ok,
    ensures
        ({
            let q = step(p, item)->Ok_0;
            let f = q.fields.last();
            let g = p.globals;
            &&& q.fields.len() == p.fields.len() + 1
            &&& p.fields.is_prefix_of(q.fields)
            &&& f.report_type == ReportType::Input <==> item.tag == 8
            &&& f.report_type == ReportType::Output <==> item.tag == 9
            &&& f.report_type == ReportType::Feature <==> item.tag == 0xb
            &&& f.report_id == g.report_id
            &&& f.bit_offset == report_bits(p.reports, f.report_type, g.report_id)
            &&& (f.bit_size, f.count) == (g.report_size, g.report_count)
            &&& f.flags == unsigned_value(item.data)
            &&& (f.logical_min, f.physical_min, f.physical_max) == (g.logical_min, g.physical_min, g.physical_max)
            &&& (f.unit_exponent, f.unit) == (g.unit_exponent, g.unit)
            &&& g.logical_min < 0 || g.logical_max >= 0 ==> f.logical_max == g.logical_max
            &&& q.globals == g
        }),
{
}

/// A logical maximum that reads as negative where the minimum is not is meant
/// unsigned, in the size in which it was given.
pub proof fn lemma_unsigned_maximum(g: Globals)
    requires
        globals_wf(g),
        g.logical_min >= 0,
        g.logical_max < 0,
    ensures
        g.logical_max_size == 1 ==> effective_max(g) == g.logical_max + 0x100,
        g.logical_max_size == 2 ==> effective_max(g) == g.logical_max + 0x1_0000,
        g.logical_max_size == 4 ==> effective_max(g) == g.logical_max + 0x1_0000_0000,
{
}

/// An application collection at the top is known by the first usage before it;
/// collections inside others are not listed.
pub proof fn lemma_application_usages(p: ParseView, item: ItemView)
    requires
        item.kind == ItemType::Main,
        item.tag == 0xa,
    ensures
        ({
            let q = step(p, item)->Ok_0;
            let page = p.globals.usage_page;
            &&& step(p, item) is Ok
            &&& q.depth == p.depth + 1
            &&& q.fields == p.fields
            &&& p.depth == 0 && unsigned_value(item.data) == 1 && p.usages.len() > 0 ==> q.application_usages
                == p.application_usages.push(resolved(page, p.usages[0]))
            &&& p.depth > 0 || unsigned_value(item.data) != 1 ==> q.application_usages == p.application_usages
        }),
        resolved(p.globals.usage_page, (unsigned_value(item.data), true)).0 == unsigned_value(item.data),
        resolved(p.globals.usage_page, (unsigned_value(item.data), false)).0 == 65536 * p.globals.usage_page
            + unsigned_value(item.data) % 65536,
{
}

/// A value is made of its bits, the first of which counts least: bit k of it
/// is the k-th bit from where it starts, counted from the lowest of each byte.
pub proof fn lemma_value_bits(report: Seq<u8>, start: int, n: nat, k: int)
    requires
        0 <= k < n,
    ensures
        0 <= bits_value(report, start, n) < pow2(n),
        bits_value(report, start, n) / pow2(k as nat) as int % 2 == bit_of(report, start + k),
    decreases n,
{
    let m = (n - 1) as nat;
    let v = bits_value(report, start, m);
    let b = bit_of(report, start + n - 1);
    lemma_pow2_pos(m);
    lemma_pow2_unfold(n);
    lemma_bits_bound(report, start, m);
    assert(0 <= b <= 1);
    let t = pow2(m) as int;
    assert(0 <= v + b * t < 2 * t) by (nonlinear_arith)
        requires
            0 <= v < t,
            0 <= b <= 1,
    ;
    if k == n - 1 {
        assert((v + b * t) / t == b) by (nonlinear_arith)
            requires
                0 <= v < t,
                0 <= b <= 1,
        ;
    } else {
        lemma_value_bits(report, start, m, k);
        let s = pow2(k as nat) as int;
        lemma_pow2_pos(k as nat);
        let d = (m - k) as nat;
        vstd::arithmetic::power2::lemma_pow2_adds(k as nat, d);
        let e = pow2(d) as int;
        vstd::arithmetic::power2::lemma_pow2_unfold(d);
        let h = pow2((d - 1) as nat) as int;
        assert(t == s * e);
        assert(e == 2 * h);
        assert(b * t == s * (2 * (b * h))) by (nonlinear_arith)
            requires
                t == s * e,
                e == 2 * h,
        ;
        let x = 2 * (b * h);
        vstd::arithmetic::div_mod::lemma_hoist_over_denominator(v, x, s as nat);
        assert((v + s * x) / s == v / s + x) by {
            assert(v / s + x == (v + x * s) / s);
            assert(x * s == s * x) by (nonlinear_arith);
        }
        assert((v / s + 2 * (b * h)) % 2 == (v / s) % 2);
    }
}

/// A bit of a report is a bit of one of its bytes.
pub proof fn lemma_report_bit(report: Seq<u8>, byte: int, bit: int)
    requires
        0 <= byte < report.len(),
        0 <= bit < 8,
    ensures
        bit_of(report, 8 * byte + bit) == report[byte] as int / pow2(bit as nat) as int % 2,
{
    assert((8 * byte + bit) / 8 == byte);
    assert((8 * byte + bit) % 8 == bit);
}

/// An element of a field starts behind the elements before it, and has a value
/// if it is inside the field and the report and at most 32 bits long; where
/// negative values are possible, the highest bit is the sign.
pub proof fn lemma_field_values(f: FieldView, report: Seq<u8>, index: u32)
    ensures
        ({
            let start = f.bit_offset + index * f.bit_size;
            let v = field_value(f, report, index);
            let raw = bits_value(report, start, f.bit_size as nat);
            &&& v is Some <==> index < f.count && 1 <= f.bit_size <= 32 && start + f.bit_size <= 8 * report.len()
            &&& v is Some && f.logical_min >= 0 ==> v == Some(raw)
            &&& v is Some && f.logical_min < 0 && raw < pow2((f.bit_size - 1) as nat) ==> v == Some(raw)
            &&& v is Some && f.logical_min < 0 && raw >= pow2((f.bit_size - 1) as nat) ==> v == Some(
                raw - pow2(f.bit_size as nat) as int,
            )
        }),
{
    if f.bit_size > 0 {
        lemma_pow2_unfold(f.bit_size as nat);
    }
}

/// How many bits a report has, how many bytes that makes, and which fields
/// belong to it.
pub proof fn lemma_reports(reports: Seq<ReportSize>, fields: Seq<FieldView>, f: FieldView, kind: ReportType, id: u8, k: int)
    requires
        0 <= k <= reports.len(),
        forall|j: int| 0 <= j < k ==> !((#[trigger] reports[j]).0 == kind && reports[j].1 == id),
    ensures
        k == reports.len() ==> payload_len(reports, kind, id) is None && report_bits(reports, kind, id) == 0,
        k < reports.len() && reports[k].0 == kind && reports[k].1 == id ==> {
            &&& payload_len(reports, kind, id) == Some((reports[k].2 + 7) / 8)
            &&& report_bits(reports, kind, id) == reports[k].2
        },
        fields_of(Seq::empty(), kind, id).len() == 0,
        f.report_type == kind && f.report_id == id ==> fields_of(fields.push(f), kind, id) == fields_of(
            fields,
            kind,
            id,
        ).push(f),
        f.report_type != kind || f.report_id != id ==> fields_of(fields.push(f), kind, id) == fields_of(fields, kind, id),
{
    lemma_report_first(reports, kind, id, k);
    assert(fields.push(f).drop_last() =~= fields);
}

proof fn lemma_report_first(reports: Seq<ReportSize>, kind: ReportType, id: u8, k: int)
    requires
        0 <= k <= reports.len(),
        forall|j: int| 0 <= j < k ==> !((#[trigger] reports[j]).0 == kind && reports[j].1 == id),
    ensures
        k == reports.len() || (reports[k].0 == kind && reports[k].1 == id) ==> report_position(reports, kind, id) == k,
    decreases k,
{
    if k > 0 {
        let w = reports.skip(1);
        assert forall|j: int| 0 <= j < k - 1 implies !((#[trigger] w[j]).0 == kind && w[j].1 == id) by {
            assert(w[j] == reports[j + 1]);
        }
        assert(!(reports[0].0 == kind && reports[0].1 == id));
        if k < reports.len() {
            assert(w[k - 1] == reports[k]);
        }
        lemma_report_first(w, kind, id, k - 1);
    }
}

/// The elements of a field take the usages of the list in order, and those
/// behind its end the last one.
pub proof fn lemma_usage_list(v: Seq<Usage>, index: int)
    requires
        0 <= index,
    ensures
        index < v.len() ==> usage_at(UsagesView::List(v), index) == Some(v[index]),
        index >= v.len() && v.len() > 0 ==> usage_at(UsagesView::List(v), index) == Some(v[v.len() - 1]),
        v.len() == 0 ==> usage_at(UsagesView::List(v), index) is None,
{
}

/// The elements of a field take the usages of a range one after the other, and
/// those behind its end none.
pub proof fn lemma_usage_range(min: Usage, max: Usage, index: int)
    requires
        0 <= index,
    ensures
        min.0 + index <= max.0 ==> usage_at(UsagesView::Range(min, max), index) is Some && (usage_at(
            UsagesView::Range(min, max),
            index,
        )->0).0 == min.0 + index,
        min.0 + index > max.0 ==> usage_at(UsagesView::Range(min, max), index) is None,
{
}

} // verus!
