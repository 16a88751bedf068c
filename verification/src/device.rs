//! What the radio says of itself when it starts: reading the listing of
//! devices for the maker, the product and the serial number of one device.
//!
//! A line of the listing looks like `0:  Realtek, RTL2838UHIDIR, SN: 00000001`,
//! and the line that names the device in use like
//! `Using device 0: Generic RTL2832U`.

use vstd::prelude::*;
use std::collections::hash_map::DefaultHasher;
use std::hash::Hasher;
use vstd::std_specs::hash::DefaultHasherAdditionalSpecFns;
use vstd::utf8::encode_utf8;
use crate::text::{
    chars_of, decimal, find_char, has_prefix, is_white_space, place_of, push_number, starts_with,
    text_from, trim_range, trimmed, upper_hex, white_space,
};
use crate::types::text_of;

verus! {

/// Whether a character is a printable ASCII character or the space.
pub open spec fn is_printable(c: char) -> bool {
    0x20 <= c as u32 <= 0x7E
}

/// The printable characters of a text, in their order.
pub open spec fn printable(text: Seq<char>) -> Seq<char>
    decreases text.len(),
{
    if text.len() == 0 {
        Seq::empty()
    } else if is_printable(text.last()) {
        printable(text.drop_last()).push(text.last())
    } else {
        printable(text.drop_last())
    }
}

/// A text with nothing but its printable characters, without the spaces at
/// its start and at its end.
pub open spec fn sanitized(text: Seq<char>) -> Seq<char> {
    trimmed(printable(text))
}

/// Where field `k` of a text starts, the fields being what stands between
/// its commas; beyond the end of the text where it has no such field.
pub open spec fn field_start(text: Seq<char>, k: nat) -> int
    decreases k,
{
    if k == 0 {
        0
    } else {
        let before = field_start(text, (k - 1) as nat);
        if before > text.len() {
            before
        } else {
            place_of(text, ',', before) + 1
        }
    }
}

/// Field `k` of a text, if it has one.
pub open spec fn field(text: Seq<char>, k: nat) -> Option<Seq<char>> {
    let start = field_start(text, k);
    if start > text.len() {
        None
    } else {
        Some(text.subrange(start, place_of(text, ',', start)))
    }
}

/// What is known of a device.
#[derive(Debug, Clone)]
pub struct DeviceInfo {
    pub manufacturer: Option<String>,
    pub product: Option<String>,
    /// The serial number as the listing gives it.
    pub raw_serial: Option<String>,
}

/// What is known of a device, as a mathematical value.
pub struct DeviceInfoView {
    pub manufacturer: Option<Seq<char>>,
    pub product: Option<Seq<char>>,
    pub raw_serial: Option<Seq<char>>,
}

impl View for DeviceInfo {
    type V = DeviceInfoView;

    open spec fn view(&self) -> DeviceInfoView {
        DeviceInfoView {
            manufacturer: text_of(self.manufacturer),
            product: text_of(self.product),
            raw_serial: text_of(self.raw_serial),
        }
    }
}

/// A text, unless it is empty.
pub open spec fn unless_empty(text: Seq<char>, otherwise: Option<Seq<char>>) -> Option<Seq<char>> {
    if text.len() > 0 {
        Some(text)
    } else {
        otherwise
    }
}

/// What is known after the entry of the device in the listing was read:
/// the first field is the maker and the second the product, each unless it
/// is empty when sanitized, and the third, if it starts with `SN:`, gives
/// the serial number.
pub open spec fn after_entry(info: DeviceInfoView, entry: Seq<char>) -> DeviceInfoView {
    DeviceInfoView {
        manufacturer: match field(entry, 0) {
            Some(text) => unless_empty(sanitized(text), info.manufacturer),
            None => info.manufacturer,
        },
        product: match field(entry, 1) {
            Some(text) => unless_empty(sanitized(text), info.product),
            None => info.product,
        },
        raw_serial: match field(entry, 2) {
            Some(text) => if starts_with(trimmed(text), "SN:"@) {
                Some(trimmed(trimmed(text).skip(3)))
            } else {
                info.raw_serial
            },
            None => info.raw_serial,
        },
    }
}

/// What is known after the line that names the device in use was read:
/// what follows its colon is the product, if none is known yet.
pub open spec fn after_name(info: DeviceInfoView, line: Seq<char>) -> DeviceInfoView {
    let colon = place_of(line, ':', 0);
    let name = trimmed(line.skip(colon + 1));
    if colon < line.len() && info.product is None && name.len() > 0 {
        DeviceInfoView { product: Some(sanitized(name)), ..info }
    } else {
        info
    }
}

/// What is known of device `device_index` after one more line of what the
/// radio printed was read.
pub open spec fn after_line(info: DeviceInfoView, line: Seq<char>, device_index: u32) -> DeviceInfoView {
    let text = trimmed(line);
    let label = decimal(device_index as nat).push(':');
    let listed = if starts_with(text, label) {
        after_entry(info, trimmed(text.skip(label.len() as int)))
    } else {
        info
    };
    if starts_with(text, "Using device"@) {
        after_name(listed, text)
    } else {
        listed
    }
}

/// The four bytes of a number, the lowest first.
pub open spec fn low_bytes_first(value: u32) -> Seq<u8> {
    seq![
        (value % 256) as u8,
        ((value / 256) % 256) as u8,
        ((value / 65536) % 256) as u8,
        (value / 16777216) as u8,
    ]
}

/// What goes into the hash of a device: the maker, `Unknown` where there
/// is none, the product, `RTL-SDR` where there is none, each followed by a
/// byte of ones, and the index of the device.
pub open spec fn hashed(
    manufacturer: Option<Seq<char>>,
    product: Option<Seq<char>>,
    device_index: u32,
) -> Seq<Seq<u8>> {
    seq![
        match manufacturer {
            Some(text) => encode_utf8(text),
            None => encode_utf8("Unknown"@),
        },
        seq![0xFFu8],
        match product {
            Some(text) => encode_utf8(text),
            None => encode_utf8("RTL-SDR"@),
        },
        seq![0xFFu8],
        low_bytes_first(device_index),
    ]
}

/// The identifier that is made up for a device whose serial number says
/// nothing: eight hexadecimal digits of a hash.
pub open spec fn made_up_serial(
    manufacturer: Option<Seq<char>>,
    product: Option<Seq<char>>,
    device_index: u32,
) -> Seq<char> {
    upper_hex(
        (DefaultHasher::spec_finish(hashed(manufacturer, product, device_index))
            % 0x1_0000_0000) as nat,
        8,
    )
}

/// Whether a serial number says nothing: it is empty, or the one that
/// every device has that was never given its own.
pub open spec fn is_default_serial(serial: Seq<char>) -> bool {
    serial.len() == 0 || serial == "00000001"@
}

fn sanitize_range(chars: &[char], from: usize, to: usize) -> (text: String)
    requires
        from <= to <= chars@.len(),
    ensures
        text@ == sanitized(chars@.subrange(from as int, to as int)),
{
    let ghost part = chars@.subrange(from as int, to as int);
    let mut kept: Vec<char> = Vec::new();
    let mut k: usize = from;
    while k < to
        invariant
            from <= k <= to <= chars@.len(),
            part == chars@.subrange(from as int, to as int),
            kept@ == printable(part.take(k - from)),
        decreases to - k,
    {
        let c = chars[k];
        proof {
            assert(part.take(k - from + 1).drop_last() =~= part.take(k - from));
            assert(part.take(k - from + 1).last() == c);
        }
        if 0x20 <= c as u32 && c as u32 <= 0x7E {
            kept.push(c);
        }
        k = k + 1;
    }
    proof {
        assert(part.take(to - from) =~= part);
        assert(kept@.subrange(0, kept@.len() as int) =~= kept@);
    }
    let (start, end) = trim_range(kept.as_slice(), 0, kept.len());
    text_from(kept.as_slice(), start, end)
}

/// A text with nothing but its printable characters, without the spaces at
/// its start and at its end.
pub fn sanitize_string(s: &str) -> (text: String)
    ensures
        text@ == sanitized(s@),
{
    let chars = chars_of(s);
    proof {
        assert(chars@.subrange(0, chars@.len() as int) =~= chars@);
    }
    sanitize_range(chars.as_slice(), 0, chars.len())
}

/// An identifier for a device whose serial number says nothing, made of
/// its maker, its product and its index.
pub fn generate_device_hash(
    manufacturer: &Option<String>,
    product: &Option<String>,
    device_index: u32,
) -> (id: String)
    ensures
        id@ == made_up_serial(text_of(*manufacturer), text_of(*product), device_index),
{
    let mut hasher = DefaultHasher::new();
    match manufacturer {
        Some(text) => hasher.write(text.as_str().as_bytes()),
        None => hasher.write("Unknown".as_bytes()),
    }
    let mark: [u8; 1] = [0xFF];
    hasher.write(mark.as_slice());
    match product {
        Some(text) => hasher.write(text.as_str().as_bytes()),
        None => hasher.write("RTL-SDR".as_bytes()),
    }
    hasher.write(mark.as_slice());
    let index: [u8; 4] = [
        (device_index % 256) as u8,
        ((device_index / 256) % 256) as u8,
        ((device_index / 65536) % 256) as u8,
        (device_index / 16777216) as u8,
    ];
    hasher.write(index.as_slice());
    proof {
        assert(mark@ =~= seq![0xFFu8]);
        assert(index@ =~= low_bytes_first(device_index));
        assert(hasher@ =~= hashed(text_of(*manufacturer), text_of(*product), device_index));
    }
    let hash = hasher.finish();
    let mut id = String::new();
    push_number(&mut id, hash % 0x1_0000_0000, 16, 8);
    id
}

impl DeviceInfo {
    /// Nothing is known.
    pub fn new() -> (info: DeviceInfo)
        ensures
            info@ == (DeviceInfoView { manufacturer: None, product: None, raw_serial: None }),
    {
        DeviceInfo { manufacturer: None, product: None, raw_serial: None }
    }

    /// Reads the entry of the device in the listing: its fields between
    /// commas.
    fn read_entry(&mut self, entry: &[char])
        ensures
            final(self)@ == after_entry(old(self)@, entry@),
    {
        let n = entry.len();
        proof {
            assert(entry@.take(n as int) =~= entry@);
        }
        let end0 = find_char(entry, ',', 0, n);
        let maker = sanitize_range(entry, 0, end0);
        if maker.as_str().unicode_len() > 0 {
            self.manufacturer = Some(maker);
        }
        if end0 >= n {
            return ;
        }
        let start1 = end0 + 1;
        let end1 = find_char(entry, ',', start1, n);
        let product = sanitize_range(entry, start1, end1);
        if product.as_str().unicode_len() > 0 {
            self.product = Some(product);
        }
        assert(field_start(entry@, 1) == start1);
        if end1 >= n {
            assert(field_start(entry@, 2) == n + 1);
            return ;
        }
        let start2 = end1 + 1;
        assert(field_start(entry@, 2) == start2);
        let end2 = find_char(entry, ',', start2, n);
        let (from, to) = trim_range(entry, start2, end2);
        let marker = chars_of("SN:");
        proof {
            reveal_strlit("SN:");
        }
        if has_prefix(entry, from, to, marker.as_slice()) {
            let (a, b) = trim_range(entry, from + 3, to);
            proof {
                let part = entry@.subrange(from as int, to as int);
                assert(part.skip(3) =~= entry@.subrange(from + 3, to as int));
            }
            self.raw_serial = Some(text_from(entry, a, b));
        }
    }

    /// Reads one line of what the radio printed when it was asked for
    /// device `device_index`.
    pub fn read_line(&mut self, line: &str, device_index: u32)
        ensures
            final(self)@ == after_line(old(self)@, line@, device_index),
    {
        let chars = chars_of(line);
        let (start, end) = trim_range(chars.as_slice(), 0, chars.len());
        let ghost text = trimmed(line@);
        proof {
            assert(chars@.subrange(0, chars@.len() as int) =~= chars@);
        }
        let mut label_text = String::new();
        push_number(&mut label_text, device_index as u64, 10, 0);
        label_text.push(':');
        let label = chars_of(label_text.as_str());
        proof {
            assert(label@ =~= decimal(device_index as nat).push(':'));
        }
        if has_prefix(chars.as_slice(), start, end, label.as_slice()) {
            let (from, to) = trim_range(chars.as_slice(), start + label.len(), end);
            let mut entry: Vec<char> = Vec::new();
            let mut k: usize = from;
            while k < to
                invariant
                    from <= k <= to <= chars@.len(),
                    entry@ == chars@.subrange(from as int, k as int),
                decreases to - k,
            {
                entry.push(chars[k]);
                proof {
                    assert(entry@ =~= chars@.subrange(from as int, k + 1));
                }
                k = k + 1;
            }
            proof {
                assert(text.skip(label@.len() as int) =~= chars@.subrange(
                    start + label@.len(),
                    end as int,
                ));
            }
            self.read_entry(entry.as_slice());
        }
        let using = chars_of("Using device");
        if has_prefix(chars.as_slice(), start, end, using.as_slice()) {
            let colon = find_char(chars.as_slice(), ':', start, end);
            if colon < end {
                let (from, to) = trim_range(chars.as_slice(), colon + 1, end);
                proof {
                    assert(text.skip(colon - start + 1) =~= chars@.subrange(colon + 1, end as int));
                }
                if self.product.is_none() && to > from {
                    self.product = Some(sanitize_range(chars.as_slice(), from, to));
                }
            }
        }
    }

    /// The serial number of the device: the one of the listing, sanitized,
    /// or a made-up one where that says nothing; none where the listing
    /// gave none.
    pub fn serial(&self, device_index: u32) -> (serial: Option<String>)
        ensures
            match self@.raw_serial {
                Some(raw) => serial is Some && serial->0@ == if is_default_serial(sanitized(raw)) {
                    made_up_serial(self@.manufacturer, self@.product, device_index)
                } else {
                    sanitized(raw)
                },
                None => serial is None,
            },
    {
        match &self.raw_serial {
            Some(raw) => {
                let clean = sanitize_string(raw.as_str());
                let default = chars_of("00000001");
                let chars = chars_of(clean.as_str());
                let n = chars.len();
                proof {
                    assert(chars@.subrange(0, n as int) =~= chars@);
                }
                let is_default = n == 0 || (n == default.len() && has_prefix(
                    chars.as_slice(),
                    0,
                    n,
                    default.as_slice(),
                ));
                proof {
                    if n == default@.len() {
                        assert(chars@.take(n as int) =~= chars@);
                    }
                }
                if is_default {
                    Some(generate_device_hash(&self.manufacturer, &self.product, device_index))
                } else {
                    Some(clean)
                }
            },
            None => None,
        }
    }
}

/// Whether a character is a letter or a digit of any script.
pub uninterp spec fn alphanumeric(c: char) -> bool;

/// `char::is_alphanumeric` of the standard library tells whether a
/// character is alphabetic or numeric as Unicode defines it; what it tells
/// depends on the character alone.
pub assume_specification[ char::is_alphanumeric ](c: char) -> (yes: bool)
    ensures
        yes == alphanumeric(c),
;

/// The first place from `from` on at which `pattern` stands in a text, and
/// the length of the text if there is none.
pub open spec fn text_at(text: Seq<char>, pattern: Seq<char>, from: int) -> int
    decreases text.len() - from,
{
    if from < 0 || from >= text.len() || from + pattern.len() > text.len() {
        text.len() as int
    } else if text.subrange(from, from + pattern.len()) == pattern {
        from
    } else {
        text_at(text, pattern, from + 1)
    }
}

/// Where the first word of a text ends, looking from `from` on: at its
/// first white space, or at its end.
pub open spec fn word_end(text: Seq<char>, from: int) -> int
    decreases text.len() - from,
{
    if 0 <= from < text.len() && !is_white_space(text[from]) {
        word_end(text, from + 1)
    } else {
        from
    }
}

/// Whether a text is made of letters and digits only.
pub open spec fn is_alphanumeric_text(text: Seq<char>) -> bool {
    forall|k: int| 0 <= k < text.len() ==> alphanumeric(#[trigger] text[k])
}

/// The serial number that a line gives: the word that follows its first
/// `SN:`, if there is one and it is made of letters and digits only.
pub open spec fn serial_in(line: Seq<char>) -> Option<Seq<char>> {
    let at = text_at(line, "SN:"@, 0);
    let rest = trimmed(line.skip(at + 3));
    let word = rest.take(word_end(rest, 0));
    if at < line.len() && word.len() > 0 && is_alphanumeric_text(word) {
        Some(word)
    } else {
        None
    }
}

/// The serial number that a line of what the radio printed gives, if any.
pub fn serial_in_line(line: &str) -> (serial: Option<String>)
    ensures
        text_of(serial) == serial_in(line@),
{
    let chars = chars_of(line);
    let n = chars.len();
    let marker = chars_of("SN:");
    proof {
        reveal_strlit("SN:");
    }
    if n < 3 {
        return None;
    }
    let mut at: usize = 0;
    while at <= n - 3 && !has_prefix(chars.as_slice(), at, n, marker.as_slice())
        invariant
            n == chars@.len(),
            n >= 3,
            chars@ == line@,
            at <= n,
            marker@ == "SN:"@,
            marker@.len() == 3,
            text_at(line@, marker@, 0) == text_at(line@, marker@, at as int),
        decreases n - at,
    {
        proof {
            assert(chars@.subrange(at as int, n as int).take(3) =~= chars@.subrange(
                at as int,
                at + 3,
            ));
        }
        at = at + 1;
    }
    if at > n - 3 {
        return None;
    }
    proof {
        assert(chars@.subrange(at as int, n as int).take(3) =~= chars@.subrange(at as int, at + 3));
        assert(text_at(line@, marker@, 0) == at);
        assert(line@.skip(at + 3) =~= chars@.subrange(at + 3, n as int));
    }
    let (from, to) = trim_range(chars.as_slice(), at + 3, n);
    let ghost rest = chars@.subrange(from as int, to as int);
    let mut end: usize = from;
    let mut plain = true;
    while end < to && !white_space(chars[end])
        invariant
            from <= end <= to <= n == chars@.len(),
            rest == chars@.subrange(from as int, to as int),
            word_end(rest, 0) == word_end(rest, end - from),
            plain == is_alphanumeric_text(rest.take(end - from)),
        decreases to - end,
    {
        let c = chars[end];
        proof {
            let before = rest.take(end - from);
            let after = rest.take(end - from + 1);
            assert(after[end - from] == c);
            assert forall|k: int| 0 <= k < before.len() implies before[k] == after[k] by {}
            if is_alphanumeric_text(after) {
                assert forall|k: int| 0 <= k < before.len() implies alphanumeric(
                    #[trigger] before[k],
                ) by {
                    assert(alphanumeric(after[k]));
                }
            }
            if is_alphanumeric_text(before) && alphanumeric(c) {
                assert forall|k: int| 0 <= k < after.len() implies alphanumeric(
                    #[trigger] after[k],
                ) by {
                    if k < before.len() {
                        assert(alphanumeric(before[k]));
                    }
                }
            }
            if !alphanumeric(c) {
                assert(!alphanumeric(after[end - from]));
            }
        }
        if !c.is_alphanumeric() {
            plain = false;
        }
        end = end + 1;
    }
    proof {
        assert(rest.take(end - from) =~= chars@.subrange(from as int, end as int));
    }
    if end > from && plain {
        Some(text_from(chars.as_slice(), from, end))
    } else {
        None
    }
}

} // verus!
