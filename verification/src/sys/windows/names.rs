//! Device instance names and GUIDs.

use crate::text;
use vstd::prelude::*;

verus! {

// ----- letters ------------------------------------------------------------------------

/// A character with an ASCII letter made upper case.
pub open spec fn upper_char(c: char) -> char {
    if 'a' <= c <= 'z' {
        (c as u32 - 32) as char
    } else {
        c
    }
}

/// A text with its ASCII letters made upper case.
pub open spec fn upper(s: Seq<char>) -> Seq<char> {
    s.map_values(|c: char| upper_char(c))
}

fn to_upper(c: char) -> (r: char)
    ensures
        r == upper_char(c),
{
    match c {
        'a' => 'A',
        'b' => 'B',
        'c' => 'C',
        'd' => 'D',
        'e' => 'E',
        'f' => 'F',
        'g' => 'G',
        'h' => 'H',
        'i' => 'I',
        'j' => 'J',
        'k' => 'K',
        'l' => 'L',
        'm' => 'M',
        'n' => 'N',
        'o' => 'O',
        'p' => 'P',
        'q' => 'Q',
        'r' => 'R',
        's' => 'S',
        't' => 'T',
        'u' => 'U',
        'v' => 'V',
        'w' => 'W',
        'x' => 'X',
        'y' => 'Y',
        'z' => 'Z',
        _ => c,
    }
}

/// Whether `what` stands in `s` at `at`, whatever the case of ASCII letters in
/// `s`.
pub open spec fn stands_at(s: Seq<char>, what: Seq<char>, at: int) -> bool {
    &&& 0 <= at
    &&& at + what.len() <= s.len()
    &&& forall|i: int| 0 <= i < what.len() ==> upper_char(s[at + i]) == #[trigger] what[i]
}

fn found_at(s: &str, what: &str, at: usize) -> (r: bool)
    ensures
        r == stands_at(s@, what@, at as int),
{
    let n: usize = s.unicode_len();
    let m: usize = what.unicode_len();
    if at > n || m > n - at {
        return false;
    }
    let mut i: usize = 0;
    while i < m
        invariant
            i <= m,
            m == what@.len(),
            n == s@.len(),
            at + m <= n,
            forall|k: int| 0 <= k < i ==> upper_char(s@[at + k]) == #[trigger] what@[k],
        decreases m - i,
    {
        if to_upper(s.get_char(at + i)) != what.get_char(i) {
            assert(upper_char(s@[at + i]) != what@[i as int]);
            return false;
        }
        i += 1;
    }
    true
}

/// Where `what` first stands in `s` at or after `from`.
pub open spec fn first_standing(s: Seq<char>, what: Seq<char>, from: int) -> Option<int>
    decreases s.len() + 1 - from,
{
    if from < 0 || from > s.len() {
        None
    } else if stands_at(s, what, from) {
        Some(from)
    } else {
        first_standing(s, what, from + 1)
    }
}

/// Where `what` first stands in `s`, whatever the case of ASCII letters in
/// `s`.
pub fn find(s: &str, what: &str) -> (r: Option<usize>)
    ensures
        match first_standing(s@, what@, 0) {
            Some(i) => r is Some && r->0 == i,
            None => r is None,
        },
        r is Some ==> r->0 + what@.len() <= s@.len(),
{
    let n: usize = s.unicode_len();
    let m: usize = what.unicode_len();
    if m > n {
        proof {
            lemma_too_long(s@, what@, 0);
        }
        return None;
    }
    let mut i: usize = 0;
    while i <= n - m
        invariant
            i <= n - m,
            m <= n,
            n == s@.len(),
            m == what@.len(),
            first_standing(s@, what@, 0) == first_standing(s@, what@, i as int),
        decreases n - m - i,
    {
        if found_at(s, what, i) {
            return Some(i);
        }
        if i == n - m {
            proof {
                lemma_too_long(s@, what@, i + 1);
            }
            return None;
        }
        i += 1;
    }
    None
}

proof fn lemma_too_long(s: Seq<char>, what: Seq<char>, from: int)
    requires
        0 <= from,
        from + what.len() > s.len(),
    ensures
        first_standing(s, what, from) is None,
    decreases s.len() + 1 - from,
{
    if from <= s.len() {
        lemma_too_long(s, what, from + 1);
    }
}

/// Whether two texts are the same but for the case of ASCII letters; `b` is
/// in upper case.
pub fn equals_upper(a: &str, b: &str) -> (r: bool)
    ensures
        r == (upper(a@) == b@),
{
    let r = a.unicode_len() == b.unicode_len() && found_at(a, b, 0);
    proof {
        if r {
            assert(upper(a@) =~= b@) by {
                assert forall|i: int| 0 <= i < b@.len() implies upper(a@)[i] == b@[i] by {
                    assert(upper_char(a@[0 + i]) == b@[i]);
                }
            }
        }
        if upper(a@) == b@ {
            assert(upper(a@).len() == a@.len());
            assert forall|i: int| 0 <= i < b@.len() implies upper_char(a@[0 + i]) == #[trigger] b@[i] by {
                assert(upper(a@)[i] == upper_char(a@[i]));
            }
        }
    }
    r
}

// ----- hexadecimal numbers ----------------------------------------------------------------

/// The value of a hexadecimal digit.
pub open spec fn hex_digit(c: char) -> Option<nat> {
    if '0' <= c <= '9' {
        Some((c as nat - '0' as nat) as nat)
    } else if 'a' <= c <= 'f' {
        Some((c as nat - 'a' as nat + 10) as nat)
    } else if 'A' <= c <= 'F' {
        Some((c as nat - 'A' as nat + 10) as nat)
    } else {
        None
    }
}

/// The number that hexadecimal digits stand for.
pub open spec fn hex_value(s: Seq<char>) -> Option<nat>
    decreases s.len(),
{
    if s.len() == 0 {
        Some(0)
    } else {
        match (hex_value(s.drop_last()), hex_digit(s.last())) {
            (Some(v), Some(d)) => Some(v * 16 + d),
            _ => None,
        }
    }
}

/// The number of at most `max` that a text stands for: hexadecimal digits, at
/// least one, with or without a plus sign before them.
pub open spec fn hex_number(s: Seq<char>, max: nat) -> Option<nat> {
    let digits = if s.len() > 0 && s[0] == '+' {
        s.skip(1)
    } else {
        s
    };
    match hex_value(digits) {
        Some(v) => if digits.len() > 0 && v <= max {
            Some(v)
        } else {
            None
        },
        None => None,
    }
}

proof fn lemma_hex_prefix(s: Seq<char>, k: int)
    requires
        0 <= k <= s.len(),
    ensures
        hex_value(s) matches Some(v) ==> hex_value(s.take(k)) is Some && hex_value(s.take(k))->0 <= v,
    decreases s.len(),
{
    if k == s.len() {
        assert(s.take(k) =~= s);
    } else {
        lemma_hex_prefix(s.drop_last(), k);
        assert(s.drop_last().take(k) =~= s.take(k));
    }
}

fn digit_value(c: char) -> (r: Option<u64>)
    ensures
        match hex_digit(c) {
            Some(d) => r is Some && r->0 == d && d < 16,
            None => r is None,
        },
{
    if c >= '0' && c <= '9' {
        Some(c as u64 - '0' as u64)
    } else if c >= 'a' && c <= 'f' {
        Some(c as u64 - 'a' as u64 + 10)
    } else if c >= 'A' && c <= 'F' {
        Some(c as u64 - 'A' as u64 + 10)
    } else {
        None
    }
}

/// The number that the characters of `s` from `from` to `to` stand for.
pub fn parse_hex(s: &str, from: usize, to: usize, max: u32) -> (r: Option<u32>)
    requires
        from <= to <= s@.len(),
    ensures
        match hex_number(s@.subrange(from as int, to as int), max as nat) {
            Some(v) => r is Some && r->0 == v,
            None => r is None,
        },
{
    let ghost part = s@.subrange(from as int, to as int);
    let start: usize = if from < to && s.get_char(from) == '+' {
        from + 1
    } else {
        from
    };
    let ghost digits = s@.subrange(start as int, to as int);
    proof {
        if start > from {
            assert(part.skip(1) =~= digits);
        } else {
            assert(part =~= digits);
        }
    }
    if start == to {
        return None;
    }
    let mut value: u64 = 0;
    let mut i: usize = start;
    assert(digits.take(0) =~= Seq::<char>::empty());
    while i < to
        invariant
            start <= i <= to,
            to <= s@.len(),
            digits == s@.subrange(start as int, to as int),
            digits.len() > 0,
            hex_number(part, max as nat) == (match hex_value(digits) {
                Some(v) => if v <= max {
                    Some(v)
                } else {
                    None
                },
                None => None,
            }),
            hex_value(digits.take(i - start)) == Some(value as nat),
            part == s@.subrange(from as int, to as int),
            value <= max,
        decreases to - i,
    {
        let c = s.get_char(i);
        proof {
            assert(digits.take(i + 1 - start).drop_last() =~= digits.take(i - start));
            assert(digits.take(i + 1 - start).last() == c);
            lemma_hex_prefix(digits, i + 1 - start);
        }
        match digit_value(c) {
            Some(d) => {
                value = value * 16 + d;
            },
            None => {
                return None;
            },
        }
        if value > max as u64 {
            return None;
        }
        i += 1;
    }
    assert(digits.take(to - start) =~= digits);
    Some(value as u32)
}

/// The number of `width` hexadecimal digits behind the first `tag` in `s`,
/// `None` if there is no tag or no such number.
pub open spec fn tagged_number(s: Seq<char>, tag: Seq<char>, width: int, max: nat) -> Option<nat> {
    match first_standing(s, tag, 0) {
        Some(i) => if i + tag.len() + width <= s.len() {
            hex_number(s.subrange(i + tag.len(), i + tag.len() + width), max)
        } else {
            None
        },
        None => None,
    }
}

/// The number of `width` hexadecimal digits behind the first `tag` in `s`.
pub fn find_tagged(s: &str, tag: &str, width: usize, max: u32) -> (r: Option<u32>)
    ensures
        match tagged_number(s@, tag@, width as int, max as nat) {
            Some(v) => r is Some && r->0 == v,
            None => r is None,
        },
{
    match find(s, tag) {
        Some(i) => {
            let n: usize = s.unicode_len();
            let from: usize = i + tag.unicode_len();
            if width <= n - from {
                parse_hex(s, from, from + width, max)
            } else {
                None
            }
        },
        None => None,
    }
}

// ----- instance names -----------------------------------------------------------------------

/// Whether an instance name is that of a root hub.
pub fn is_root_hub(id: &str) -> (r: bool)
    ensures
        r == stands_at(id@, "USB\\ROOT_HUB"@, 0),
{
    found_at(id, "USB\\ROOT_HUB", 0)
}

/// Whether an instance name is that of a device on a USB hub.
pub fn is_usb(id: &str) -> (r: bool)
    ensures
        r == stands_at(id@, "USB\\"@, 0),
{
    found_at(id, "USB\\", 0)
}

/// Whether the instance name of a root hub is that of a SuperSpeed one.
pub fn is_super_speed(id: &str) -> (r: bool)
    ensures
        r == first_standing(id@, "ROOT_HUB3"@, 0) is Some,
{
    match find(id, "ROOT_HUB3") {
        Some(_) => true,
        None => false,
    }
}

/// The number of a hardware identifier behind a tag, 0 if it has none.
pub open spec fn hardware_number(hwid: Option<Seq<char>>, tag: Seq<char>) -> u16 {
    match hwid {
        Some(s) => match tagged_number(s, tag, 4, 0xffff) {
            Some(v) => v as u16,
            None => 0,
        },
        None => 0,
    }
}

/// The vendor and product of a host controller by its hardware identifier,
/// when it is a PCI device.
pub fn controller_ids(hwid: Option<&str>) -> (r: (u16, u16))
    ensures
        r.0 == hardware_number(crate::context::optional_text(hwid), "VEN_"@),
        r.1 == hardware_number(crate::context::optional_text(hwid), "DEV_"@),
{
    match hwid {
        Some(s) => {
            let vendor: u16 = match find_tagged(s, "VEN_", 4, 0xffff) {
                Some(v) => v as u16,
                None => 0,
            };
            let product: u16 = match find_tagged(s, "DEV_", 4, 0xffff) {
                Some(v) => v as u16,
                None => 0,
            };
            (vendor, product)
        },
        None => (0, 0),
    }
}

/// The first interface of a composite device's function by its instance name.
pub fn function_interface(id: &str) -> (r: Option<u8>)
    ensures
        r == (match tagged_number(id@, "&MI_"@, 2, 0xff) {
            Some(v) => Some(v as u8),
            None => None,
        }),
{
    match find_tagged(id, "&MI_", 2, 0xff) {
        Some(v) => Some(v as u8),
        None => None,
    }
}

/// What a device's driver is to this library.
#[derive(Debug, Clone, Copy, PartialEq, Eq, Structural)]
pub enum Service {
    /// WinUSB: the device can be used.
    WinUsb,
    /// The composite driver: functions of the device may be usable.
    Composite,
    /// Another one.
    Other,
}

/// What a driver is by its service name.
pub open spec fn service_of(name: Seq<char>) -> Service {
    if upper(name) == "WINUSB"@ {
        Service::WinUsb
    } else if upper(name) == "USBCCGP"@ {
        Service::Composite
    } else {
        Service::Other
    }
}

/// What a driver is by its service name.
pub fn service(name: &str) -> (r: Service)
    ensures
        r == service_of(name@),
{
    if equals_upper(name, "WINUSB") {
        Service::WinUsb
    } else if equals_upper(name, "USBCCGP") {
        Service::Composite
    } else {
        Service::Other
    }
}

// ----- GUIDs ---------------------------------------------------------------------------------

/// A GUID.
#[derive(Debug, Clone, Copy, PartialEq, Eq)]
pub struct Guid {
    /// `Data1`.
    pub data1: u32,
    /// `Data2`.
    pub data2: u16,
    /// `Data3`.
    pub data3: u16,
    /// `Data4`.
    pub data4: [u8; 8],
}

/// What a [`Guid`] holds.
#[verifier::ext_equal]
pub struct GuidView {
    pub data1: u32,
    pub data2: u16,
    pub data3: u16,
    pub data4: Seq<u8>,
}

impl View for Guid {
    type V = GuidView;

    open spec fn view(&self) -> GuidView {
        GuidView { data1: self.data1, data2: self.data2, data3: self.data3, data4: self.data4@ }
    }
}

/// Text without the braces around it.
pub open spec fn unbraced(s: Seq<char>) -> Seq<char>
    decreases s.len(),
{
    if s.len() > 0 && s[0] == '{' {
        unbraced(s.skip(1))
    } else if s.len() > 0 && s.last() == '}' {
        unbraced(s.drop_last())
    } else {
        s
    }
}

/// Where the next dash stands at or after `from`, or the end.
pub open spec fn dash_from(s: Seq<char>, from: int) -> int
    decreases s.len() - from,
{
    if from >= s.len() {
        s.len() as int
    } else if s[from] == '-' {
        from
    } else {
        dash_from(s, from + 1)
    }
}

/// The two hexadecimal digits at `at`.
pub open spec fn hex_pair(s: Seq<char>, at: int) -> Option<nat> {
    hex_number(s.subrange(at, at + 2), 0xff)
}

/// The GUID that a text without braces stands for: five groups of hexadecimal
/// digits with dashes between them, the last two of four and twelve digits.
pub open spec fn guid_of(s: Seq<char>) -> Option<GuidView> {
    let a = dash_from(s, 0);
    let b = dash_from(s, a + 1);
    let c = dash_from(s, b + 1);
    let d = dash_from(s, c + 1);
    let e = dash_from(s, d + 1);
    if !(a < s.len() && b < s.len() && c < s.len() && d < s.len() && e == s.len()) {
        None
    } else if d - c - 1 != 4 || e - d - 1 != 12 {
        None
    } else {
        let d1 = hex_number(s.subrange(0, a), 0xffff_ffff);
        let d2 = hex_number(s.subrange(a + 1, b), 0xffff);
        let d3 = hex_number(s.subrange(b + 1, c), 0xffff);
        if d1 is None || d2 is None || d3 is None || hex_pair(s, c + 1) is None || hex_pair(s, c + 3) is None || hex_pair(
            s,
            d + 1,
        ) is None || hex_pair(s, d + 3) is None || hex_pair(s, d + 5) is None || hex_pair(s, d + 7) is None
            || hex_pair(s, d + 9) is None || hex_pair(s, d + 11) is None {
            None
        } else {
            Some(
                GuidView {
                    data1: d1->0 as u32,
                    data2: d2->0 as u16,
                    data3: d3->0 as u16,
                    data4: seq![
                        hex_pair(s, c + 1)->0 as u8,
                        hex_pair(s, c + 3)->0 as u8,
                        hex_pair(s, d + 1)->0 as u8,
                        hex_pair(s, d + 3)->0 as u8,
                        hex_pair(s, d + 5)->0 as u8,
                        hex_pair(s, d + 7)->0 as u8,
                        hex_pair(s, d + 9)->0 as u8,
                        hex_pair(s, d + 11)->0 as u8,
                    ],
                },
            )
        }
    }
}

fn next_dash(s: &str, from: usize) -> (r: usize)
    requires
        from <= s@.len(),
    ensures
        r == dash_from(s@, from as int),
        from <= r <= s@.len(),
{
    let n: usize = s.unicode_len();
    let mut i: usize = from;
    while i < n && s.get_char(i) != '-'
        invariant
            from <= i <= n,
            n == s@.len(),
            dash_from(s@, from as int) == dash_from(s@, i as int),
        decreases n - i,
    {
        i += 1;
    }
    i
}

fn pair(s: &str, at: usize) -> (r: Option<u8>)
    requires
        at + 2 <= s@.len(),
    ensures
        match hex_pair(s@, at as int) {
            Some(v) => r is Some && r->0 == v && v <= 255,
            None => r is None,
        },
{
    let n: usize = s.unicode_len();
    assert(at + 2 <= n);
    match parse_hex(s, at, at + 2, 0xff) {
        Some(v) => Some(v as u8),
        None => None,
    }
}

proof fn lemma_unbraced_once(s: Seq<char>, from: int, to: int)
    requires
        0 <= from <= to <= s.len(),
    ensures
        from < to && s[from] == '{' ==> unbraced(s.subrange(from, to)) == unbraced(s.subrange(from + 1, to)),
        from < to && s[from] != '{' && s[to - 1] == '}' ==> unbraced(s.subrange(from, to)) == unbraced(
            s.subrange(from, to - 1),
        ),
        from == to || (s[from] != '{' && s[to - 1] != '}') ==> unbraced(s.subrange(from, to)) == s.subrange(from, to),
{
    let t = s.subrange(from, to);
    if from < to {
        assert(t[0] == s[from]);
        assert(t.last() == s[to - 1]);
        assert(t.skip(1) =~= s.subrange(from + 1, to));
        assert(t.drop_last() =~= s.subrange(from, to - 1));
    }
}

fn without_braces(s: &str) -> (r: String)
    ensures
        r@ == unbraced(s@),
{
    let n: usize = s.unicode_len();
    let mut from: usize = 0;
    let mut to: usize = n;
    assert(s@.subrange(0, n as int) =~= s@);
    while from < to && s.get_char(from) == '{'
        invariant
            from <= to,
            to == n,
            n == s@.len(),
            unbraced(s@) == unbraced(s@.subrange(from as int, to as int)),
        decreases to - from,
    {
        proof {
            lemma_unbraced_once(s@, from as int, to as int);
        }
        from += 1;
    }
    while from < to && s.get_char(to - 1) == '}'
        invariant
            from <= to <= n,
            n == s@.len(),
            from < to ==> s@[from as int] != '{',
            unbraced(s@) == unbraced(s@.subrange(from as int, to as int)),
        decreases to - from,
    {
        proof {
            lemma_unbraced_once(s@, from as int, to as int);
        }
        to -= 1;
    }
    proof {
        lemma_unbraced_once(s@, from as int, to as int);
    }
    String::from_str(s.substring_char(from, to))
}

impl Guid {
    /// Parses `{xxxxxxxx-xxxx-xxxx-xxxx-xxxxxxxxxxxx}` (braces optional).
    pub fn parse(s: &str) -> (r: Option<Guid>)
        ensures
            match guid_of(unbraced(text::stripped(s@))) {
                Some(g) => r is Some && (r->0)@ == g,
                None => r is None,
            },
    {
        let trimmed = text::strip(s);
        let plain = without_braces(trimmed.as_str());
        let t = plain.as_str();
        let n: usize = t.unicode_len();
        let a: usize = next_dash(t, 0);
        if a == n {
            return None;
        }
        let b: usize = next_dash(t, a + 1);
        if b == n {
            return None;
        }
        let c: usize = next_dash(t, b + 1);
        if c == n {
            return None;
        }
        let d: usize = next_dash(t, c + 1);
        if d == n {
            return None;
        }
        let e: usize = next_dash(t, d + 1);
        if e != n || d - c - 1 != 4 || e - d - 1 != 12 {
            return None;
        }
        match (
            parse_hex(t, 0, a, 0xffff_ffff),
            parse_hex(t, a + 1, b, 0xffff),
            parse_hex(t, b + 1, c, 0xffff),
        ) {
            (Some(d1), Some(d2), Some(d3)) => match (
                (pair(t, c + 1), pair(t, c + 3), pair(t, d + 1), pair(t, d + 3)),
                (pair(t, d + 5), pair(t, d + 7), pair(t, d + 9), pair(t, d + 11)),
            ) {
                ((Some(b0), Some(b1), Some(b2), Some(b3)), (Some(b4), Some(b5), Some(b6), Some(b7))) => {
                    let data4: [u8; 8] = [b0, b1, b2, b3, b4, b5, b6, b7];
                    let g = Guid { data1: d1, data2: d2 as u16, data3: d3 as u16, data4 };
                    assert(g@ =~= guid_of(t@)->0);
                    Some(g)
                },
                _ => None,
            },
            _ => None,
        }
    }
}

/// Letters are compared without their case.
pub proof fn lemma_upper(c: char)
    ensures
        'a' <= c <= 'z' ==> upper_char(c) as u32 == c as u32 - 'a' as u32 + 'A' as u32,
        !('a' <= c <= 'z') ==> upper_char(c) == c,
{
}

/// A text is found where it first stands, if it does.
pub proof fn lemma_first_standing(s: Seq<char>, what: Seq<char>, from: int, k: int)
    requires
        0 <= from <= k <= s.len(),
        forall|j: int| from <= j < k ==> !#[trigger] stands_at(s, what, j),
    ensures
        stands_at(s, what, k) ==> first_standing(s, what, from) == Some(k),
        k == s.len() && !stands_at(s, what, k) ==> first_standing(s, what, from) is None,
    decreases k - from,
{
    if from < k {
        assert(!stands_at(s, what, from));
        lemma_first_standing(s, what, from + 1, k);
    } else if k == s.len() && !stands_at(s, what, k) {
        assert(first_standing(s, what, k + 1) is None);
    }
}

/// A hexadecimal number: one more digit makes sixteen times the number plus the
/// digit, in either case.
pub proof fn lemma_hex_numbers(s: Seq<char>, d: int)
    requires
        0 <= d < 16,
    ensures
        hex_value(Seq::empty()) == Some(0nat),
        hex_value(s) is Some && d < 10 ==> hex_value(s.push(('0' as u32 + d) as char)) == Some(
            (16 * hex_value(s)->0 + d) as nat,
        ),
        hex_value(s) is Some && d >= 10 ==> hex_value(s.push(('a' as u32 + d - 10) as char)) == Some(
            (16 * hex_value(s)->0 + d) as nat,
        ),
        hex_value(s) is Some && d >= 10 ==> hex_value(s.push(('A' as u32 + d - 10) as char)) == Some(
            (16 * hex_value(s)->0 + d) as nat,
        ),
        hex_value(s.push('-')) is None,
{
    let a = s.push(('0' as u32 + d) as char);
    let b = s.push(('a' as u32 + d - 10) as char);
    let c = s.push(('A' as u32 + d - 10) as char);
    assert(a.drop_last() =~= s);
    assert(b.drop_last() =~= s);
    assert(c.drop_last() =~= s);
    assert(s.push('-').drop_last() =~= s);
}

/// A number that is tagged in a name stands right behind the first place of the
/// tag, in as many digits as it has.
pub proof fn lemma_tagged_numbers(head: Seq<char>, tag: Seq<char>, digits: Seq<char>, tail: Seq<char>, max: nat)
    requires
        first_standing(head + tag + digits + tail, tag, 0) == Some(head.len() as int),
        digits.len() > 0,
        digits[0] != '+',
        hex_value(digits) is Some,
        hex_value(digits)->0 <= max,
    ensures
        tagged_number(head + tag + digits + tail, tag, digits.len() as int, max) == hex_value(digits),
{
    let s = head + tag + digits + tail;
    let i = head.len() as int;
    assert(s.subrange(i + tag.len(), i + tag.len() + digits.len()) =~= digits);
}

/// Services are known by their names, whatever the case.
pub proof fn lemma_services(name: Seq<char>)
    ensures
        service_of(name) == Service::WinUsb <==> upper(name) == "WINUSB"@,
        service_of(name) == Service::Composite <==> upper(name) == "USBCCGP"@ && upper(name) != "WINUSB"@,
        upper(name).len() == name.len(),
        forall|i: int| 0 <= i < name.len() ==> #[trigger] upper(name)[i] == upper_char(name[i]),
{
}

/// A number must have digits and must not be too large; a plus sign in front
/// does not matter.
pub proof fn lemma_bounded_numbers(s: Seq<char>, max: nat)
    requires
        s.len() > 0,
        s[0] != '+',
    ensures
        hex_number(s, max) is Some <==> hex_value(s) is Some && hex_value(s)->0 <= max,
        hex_number(s, max) is Some ==> hex_number(s, max) == hex_value(s),
        hex_number(seq!['+'] + s, max) == hex_number(s, max),
        hex_number(Seq::empty(), max) is None,
{
    assert((seq!['+'] + s).skip(1) =~= s);
}

/// An ID that is not there is 0.
pub proof fn lemma_hardware_numbers(s: Seq<char>, tag: Seq<char>)
    ensures
        hardware_number(None, tag) == 0,
        tagged_number(s, tag, 4, 0xffff) is None ==> hardware_number(Some(s), tag) == 0,
        tagged_number(s, tag, 4, 0xffff) matches Some(v) ==> hardware_number(Some(s), tag) == v as u16,
{
}

/// Braces around a GUID do not matter.
pub proof fn lemma_braces(s: Seq<char>)
    requires
        s.len() > 0,
        s[0] != '{',
        s.last() != '}',
    ensures
        unbraced(s) == s,
        unbraced(seq!['{'] + s) == s,
        unbraced((seq!['{'] + s).push('}')) == s,
{
    let a = seq!['{'] + s;
    let b = a.push('}');
    assert(a.skip(1) =~= s);
    assert(b[0] == '{');
    assert(b.skip(1) =~= s.push('}'));
    assert(s.push('}')[0] == s[0]);
    assert(s.push('}').drop_last() =~= s);
    assert(unbraced(s.push('}')) == unbraced(s));
}

/// A GUID is five groups of digits with dashes between: a number of 32 bits,
/// two of 16, and eight bytes.
pub proof fn lemma_guids(s: Seq<char>)
    requires
        s.len() == 36,
        s[8] == '-' && s[13] == '-' && s[18] == '-' && s[23] == '-',
        forall|i: int| 0 <= i < 36 && i != 8 && i != 13 && i != 18 && i != 23 ==> #[trigger] s[i] != '-',
    ensures
        guid_of(s) matches Some(g) ==> {
            &&& Some(g.data1 as nat) == hex_number(s.subrange(0, 8), 0xffff_ffff)
            &&& Some(g.data2 as nat) == hex_number(s.subrange(9, 13), 0xffff)
            &&& Some(g.data3 as nat) == hex_number(s.subrange(14, 18), 0xffff)
            &&& g.data4.len() == 8
            &&& Some(g.data4[0] as nat) == hex_number(s.subrange(19, 21), 0xff)
            &&& Some(g.data4[1] as nat) == hex_number(s.subrange(21, 23), 0xff)
            &&& Some(g.data4[2] as nat) == hex_number(s.subrange(24, 26), 0xff)
            &&& Some(g.data4[7] as nat) == hex_number(s.subrange(34, 36), 0xff)
        },
{
    lemma_dash(s, 0, 8);
    lemma_dash(s, 9, 13);
    lemma_dash(s, 14, 18);
    lemma_dash(s, 19, 23);
    lemma_dash(s, 24, 36);
}

proof fn lemma_dash(s: Seq<char>, from: int, k: int)
    requires
        0 <= from <= k <= s.len(),
        forall|j: int| from <= j < k ==> #[trigger] s[j] != '-',
    ensures
        k == s.len() || s[k] == '-' ==> dash_from(s, from) == k,
    decreases k - from,
{
    if from < k {
        assert(s[from] != '-');
        lemma_dash(s, from + 1, k);
    }
}

} // verus!
