use vstd::prelude::*;

use embedded_io::SliceWriteError;

verus! {

// Main items.
pub const HIDINPUT: u8 = 0x80;
pub const HIDOUTPUT: u8 = 0x90;
pub const FEATURE: u8 = 0xb0;
pub const COLLECTION: u8 = 0xa0;
pub const END_COLLECTION: u8 = 0xc0;

// Global items.
pub const USAGE_PAGE: u8 = 0x04;
pub const LOGICAL_MINIMUM: u8 = 0x14;
pub const LOGICAL_MAXIMUM: u8 = 0x24;
pub const PHYSICAL_MINIMUM: u8 = 0x34;
pub const PHYSICAL_MAXIMUM: u8 = 0x44;
pub const UNIT_EXPONENT: u8 = 0x54;
pub const UNIT: u8 = 0x64;
/// Report size, in bits.
pub const REPORT_SIZE: u8 = 0x74;
pub const REPORT_ID: u8 = 0x84;
/// Report count, in fields.
pub const REPORT_COUNT: u8 = 0x94;
pub const PUSH: u8 = 0xa4;
pub const POP: u8 = 0xb4;

// Local items.
pub const USAGE: u8 = 0x08;
pub const USAGE_MINIMUM: u8 = 0x18;
pub const USAGE_MAXIMUM: u8 = 0x28;
pub const DESIGNATOR_INDEX: u8 = 0x38;
pub const DESIGNATOR_MINIMUM: u8 = 0x48;
pub const DESIGNATOR_MAXIMUM: u8 = 0x58;
pub const STRING_INDEX: u8 = 0x78;
pub const STRING_MINIMUM: u8 = 0x88;
pub const STRING_MAXIMUM: u8 = 0x98;
pub const DELIMITER: u8 = 0xa8;

/// The report id of the keyboard report.
pub const KEYBOARD_ID: u8 = 0x01;

/// The usage id of the key `a`, sent while the button is pressed.
pub const KEY_A: u8 = 0x04;

/// A boot-protocol keyboard input report.
pub struct KeyboardReport {
    pub modifiers: u8,
    pub reserved: u8,
    pub key_codes: [u8; 6],
}

impl KeyboardReport {
    /// The eight report bytes: modifiers, the reserved byte, then the six key codes.
    pub fn to_bytes(&self) -> (bytes: [u8; 8])
        ensures
            bytes@ == seq![self.modifiers, self.reserved] + self.key_codes@,
    {
        let bytes = [
            self.modifiers,
            self.reserved,
            self.key_codes[0],
            self.key_codes[1],
            self.key_codes[2],
            self.key_codes[3],
            self.key_codes[4],
            self.key_codes[5],
        ];
        assert(bytes@ =~= seq![self.modifiers, self.reserved] + self.key_codes@);
        bytes
    }

    /// The report for the demo button: key `a` while pressed, no key otherwise.
    pub fn for_button(pressed: bool) -> (report: Self)
        ensures
            report.modifiers == 0,
            report.reserved == 0,
            report.key_codes@ == seq![if pressed { KEY_A } else { 0u8 }, 0u8, 0u8, 0u8, 0u8, 0u8],
    {
        let report = KeyboardReport {
            modifiers: 0,
            reserved: 0,
            key_codes: [if pressed {
                KEY_A
            } else {
                0u8
            }, 0, 0, 0, 0, 0],
        };
        assert(report.key_codes@ =~= seq![if pressed { KEY_A } else { 0u8 }, 0u8, 0u8, 0u8, 0u8, 0u8]);
        report
    }
}

/// A short HID item: its tag byte with the data length in the low bits, then the data.
pub open spec fn short_item(tag: u8, data: Seq<u8>) -> Seq<u8> {
    seq![(data.len() as u8) | tag] + data
}

/// The items of the keyboard report descriptor, in order.
pub open spec fn report_map_items() -> Seq<(u8, Seq<u8>)> {
    seq![
        (USAGE_PAGE, seq![0x01u8]),
        (USAGE, seq![0x06u8]),
        (COLLECTION, seq![0x01u8]),
        (REPORT_ID, seq![KEYBOARD_ID]),
        (USAGE_PAGE, seq![0x07u8]),
        (USAGE_MINIMUM, seq![0xE0u8]),
        (USAGE_MAXIMUM, seq![0xE7u8]),
        (LOGICAL_MINIMUM, seq![0x00u8]),
        (LOGICAL_MAXIMUM, seq![0x01u8]),
        (REPORT_SIZE, seq![0x01u8]),
        (REPORT_COUNT, seq![0x08u8]),
        (HIDINPUT, seq![0x02u8]),
        (REPORT_COUNT, seq![0x01u8]),
        (REPORT_SIZE, seq![0x08u8]),
        (HIDINPUT, seq![0x01u8]),
        (REPORT_COUNT, seq![0x05u8]),
        (REPORT_SIZE, seq![0x01u8]),
        (USAGE_PAGE, seq![0x08u8]),
        (USAGE_MINIMUM, seq![0x01u8]),
        (USAGE_MAXIMUM, seq![0x05u8]),
        (HIDOUTPUT, seq![0x02u8]),
        (REPORT_COUNT, seq![0x01u8]),
        (REPORT_SIZE, seq![0x03u8]),
        (HIDOUTPUT, seq![0x01u8]),
        (REPORT_COUNT, seq![0x06u8]),
        (REPORT_SIZE, seq![0x08u8]),
        (LOGICAL_MINIMUM, seq![0x00u8]),
        (LOGICAL_MAXIMUM, seq![0x65u8]),
        (USAGE_PAGE, seq![0x07u8]),
        (USAGE_MINIMUM, seq![0x00u8]),
        (USAGE_MAXIMUM, seq![0x65u8]),
        (HIDINPUT, seq![0x00u8]),
        (END_COLLECTION, Seq::<u8>::empty()),
    ]
}

/// The encoded items of a descriptor, end to end.
pub open spec fn encode_items(items: Seq<(u8, Seq<u8>)>) -> Seq<u8> {
    items.map_values(|item: (u8, Seq<u8>)| short_item(item.0, item.1)).flatten()
}

/// Appends one short item.
pub fn push_item(out: &mut Vec<u8>, tag: u8, data: &[u8])
    requires
        data@.len() < 256,
    ensures
        final(out)@ == old(out)@ + short_item(tag, data@),
{
    out.push((data.len() as u8) | tag);
    let ghost start = out@;
    let mut i: usize = 0;
    while i < data.len()
        invariant
            i <= data@.len(),
            out@ == start + data@.subrange(0, i as int),
        decreases data@.len() - i,
    {
        out.push(data[i]);
        i = i + 1;
        assert(out@ =~= start + data@.subrange(0, i as int));
    }
    assert(data@.subrange(0, data@.len() as int) =~= data@);
    assert(out@ =~= old(out)@ + short_item(tag, data@));
}

/// The HID report descriptor of the keyboard.
pub fn report_map() -> (map: Vec<u8>)
    ensures
        map@ == encode_items(report_map_items()),
{
    let tags: [u8; 33] = [
        USAGE_PAGE, USAGE, COLLECTION, REPORT_ID, USAGE_PAGE, USAGE_MINIMUM, USAGE_MAXIMUM,
        LOGICAL_MINIMUM, LOGICAL_MAXIMUM, REPORT_SIZE, REPORT_COUNT, HIDINPUT, REPORT_COUNT,
        REPORT_SIZE, HIDINPUT, REPORT_COUNT, REPORT_SIZE, USAGE_PAGE, USAGE_MINIMUM, USAGE_MAXIMUM,
        HIDOUTPUT, REPORT_COUNT, REPORT_SIZE, HIDOUTPUT, REPORT_COUNT, REPORT_SIZE, LOGICAL_MINIMUM,
        LOGICAL_MAXIMUM, USAGE_PAGE, USAGE_MINIMUM, USAGE_MAXIMUM, HIDINPUT, END_COLLECTION,
    ];
    let values: [u8; 32] = [
        0x01, 0x06, 0x01, KEYBOARD_ID, 0x07, 0xE0, 0xE7, 0x00, 0x01, 0x01, 0x08, 0x02, 0x01, 0x08,
        0x01, 0x05, 0x01, 0x08, 0x01, 0x05, 0x02, 0x01, 0x03, 0x01, 0x06, 0x08, 0x00, 0x65, 0x07,
        0x00, 0x65, 0x00,
    ];
    let ghost items = report_map_items();
    let ghost f = |item: (u8, Seq<u8>)| short_item(item.0, item.1);
    let mut map: Vec<u8> = Vec::new();
    let mut i: usize = 0;
    assert(items.subrange(0, 0).map_values(f) =~= Seq::<Seq<u8>>::empty());
    while i < 32
        invariant
            i <= 32,
            items == report_map_items(),
            f == (|item: (u8, Seq<u8>)| short_item(item.0, item.1)),
            forall|j: int| 0 <= j < 32 ==> #[trigger] items[j] == (tags@[j], seq![values@[j]]),
            map@ == items.subrange(0, i as int).map_values(f).flatten(),
        decreases 32 - i,
    {
        let one = [values[i]];
        push_item(&mut map, tags[i], &one);
        proof {
            assert(one@ =~= seq![values@[i as int]]);
            assert(items.subrange(0, i + 1).map_values(f) =~= items.subrange(0, i as int).map_values(
                f,
            ).push(f(items[i as int])));
            items.subrange(0, i as int).map_values(f).lemma_flatten_push(f(items[i as int]));
        }
        i = i + 1;
    }
    let none: [u8; 0] = [];
    push_item(&mut map, tags[32], &none);
    proof {
        assert(none@ =~= Seq::<u8>::empty());
        assert(items.subrange(0, 33) =~= items);
        assert(items.subrange(0, 33).map_values(f) =~= items.subrange(0, 32).map_values(f).push(
            f(items[32]),
        ));
        items.subrange(0, 32).map_values(f).lemma_flatten_push(f(items[32]));
    }
    map
}

/// Copies the part of `value` that starts at `offset` into `data`, as much as fits,
/// and returns how many bytes were copied (zero when `offset` is past the end).
pub fn read_at_offset(value: &[u8], offset: usize, data: &mut [u8]) -> (len: usize)
    ensures
        len == if offset < value@.len() {
            if old(data)@.len() < value@.len() - offset {
                old(data)@.len() as int
            } else {
                value@.len() - offset
            }
        } else {
            0
        },
        final(data)@.len() == old(data)@.len(),
        forall|i: int| 0 <= i < len ==> #[trigger] final(data)@[i] == value@[offset + i],
        forall|i: int| len <= i < old(data)@.len() ==> #[trigger] final(data)@[i] == old(data)@[i],
{
    if offset >= value.len() {
        return 0;
    }
    let len: usize = if data.len() < value.len() - offset {
        data.len()
    } else {
        value.len() - offset
    };
    let mut i: usize = 0;
    while i < len
        invariant
            i <= len,
            len <= data@.len(),
            offset + len <= value@.len(),
            value@.len() <= usize::MAX,
            data@.len() == old(data)@.len(),
            forall|j: int| 0 <= j < i ==> #[trigger] data@[j] == value@[offset + j],
            forall|j: int| i <= j < old(data)@.len() ==> #[trigger] data@[j] == old(data)@[j],
        decreases len - i,
    {
        data[i] = value[offset + i];
        i = i + 1;
    }
    len
}

/// Writes into a byte slice through `embedded_io::Write for &mut [u8]`.
/// Trusted, as its source shows: it copies `min(buf.len(), dest.len())` bytes to
/// the front of `dest` and returns that count, except that it fails with `Full`
/// when `buf` is not empty and `dest` is.
#[verifier::external_body]
fn slice_write(dest: &mut [u8], buf: &[u8]) -> (r: Result<usize, SliceWriteError>)
    ensures
        r is Err <==> (buf@.len() > 0 && old(dest)@.len() == 0),
        r is Err ==> final(dest)@ == old(dest)@,
        r matches Ok(n) ==> n == if buf@.len() < old(dest)@.len() {
            buf@.len()
        } else {
            old(dest)@.len()
        },
        r matches Ok(n) ==> final(dest)@ == buf@.subrange(0, n as int) + old(dest)@.skip(n as int),
{
    let mut d: &mut [u8] = dest;
    embedded_io::Write::write(&mut d, buf)
}

/// A failed write to the response buffer.
#[verifier::external_type_specification]
#[verifier::external_body]
pub struct ExSliceWriteError(SliceWriteError);

/// Writes a fixed response into a read buffer and returns how many bytes went in;
/// a failed write counts as zero bytes.
pub fn write_response(data: &mut [u8], response: &[u8]) -> (len: usize)
    ensures
        len == if response@.len() < old(data)@.len() {
            response@.len() as int
        } else {
            old(data)@.len() as int
        },
        final(data)@ == response@.subrange(0, len as int) + old(data)@.skip(len as int),
{
    match slice_write(data, response) {
        Ok(n) => n,
        Err(_) => {
            assert(data@ =~= response@.subrange(0, 0) + old(data)@.skip(0));
            0
        },
    }
}

/// The HID information characteristic: version 1.11, country 0, flags 1.
pub fn read_hid_information(data: &mut [u8]) -> (len: usize)
    ensures
        len == if old(data)@.len() < 4 { old(data)@.len() as int } else { 4 },
        final(data)@ == seq![0x11u8, 0x01, 0x00, 0x01].subrange(0, len as int) + old(data)@.skip(
            len as int,
        ),
{
    let response = [0x11u8, 0x01, 0x00, 0x01];
    assert(response@ =~= seq![0x11u8, 0x01, 0x00, 0x01]);
    write_response(data, &response)
}

/// The HID report characteristic: an empty keyboard report.
pub fn read_hid_report(data: &mut [u8]) -> (len: usize)
    ensures
        len == if old(data)@.len() < 8 { old(data)@.len() as int } else { 8 },
        final(data)@ == Seq::new(8, |i: int| 0u8).subrange(0, len as int) + old(data)@.skip(
            len as int,
        ),
{
    let report = KeyboardReport { modifiers: 0, reserved: 0, key_codes: [0u8; 6] };
    let bytes = report.to_bytes();
    assert(bytes@ =~= Seq::new(8, |i: int| 0u8));
    write_response(data, &bytes)
}

/// The protocol mode characteristic: report protocol.
pub fn read_protocol_mode(data: &mut [u8]) -> (len: usize)
    ensures
        len == if old(data)@.len() < 1 { 0int } else { 1int },
        final(data)@ == seq![0x01u8].subrange(0, len as int) + old(data)@.skip(len as int),
{
    let response = [0x01u8];
    assert(response@ =~= seq![0x01u8]);
    write_response(data, &response)
}

/// The PnP id characteristic of the device information service.
pub fn read_device_info(data: &mut [u8]) -> (len: usize)
    ensures
        len == if old(data)@.len() < 7 { old(data)@.len() as int } else { 7 },
        final(data)@ == seq![0x02u8, 0x8a, 0x24, 0x66, 0x82, 0x34, 0x36].subrange(0, len as int)
            + old(data)@.skip(len as int),
{
    let response = [0x02u8, 0x8a, 0x24, 0x66, 0x82, 0x34, 0x36];
    assert(response@ =~= seq![0x02u8, 0x8a, 0x24, 0x66, 0x82, 0x34, 0x36]);
    write_response(data, &response)
}

/// The battery level characteristic: 100 percent.
pub fn read_battery_level(data: &mut [u8]) -> (len: usize)
    ensures
        len == if old(data)@.len() < 1 { 0int } else { 1int },
        final(data)@ == seq![100u8].subrange(0, len as int) + old(data)@.skip(len as int),
{
    let response = [100u8];
    assert(response@ =~= seq![100u8]);
    write_response(data, &response)
}

/// The report map characteristic: the part of the report descriptor from `offset`.
pub fn read_hid_report_map(offset: usize, data: &mut [u8]) -> (len: usize)
    ensures
        ({
            let map = encode_items(report_map_items());
            &&& len == if offset < map.len() {
                if old(data)@.len() < map.len() - offset {
                    old(data)@.len() as int
                } else {
                    map.len() - offset
                }
            } else {
                0
            }
            &&& final(data)@.len() == old(data)@.len()
            &&& forall|i: int| 0 <= i < len ==> #[trigger] final(data)@[i] == map[offset + i]
            &&& forall|i: int| len <= i < old(data)@.len() ==> #[trigger] final(data)@[i] == old(data)@[i]
        }),
{
    let map = report_map();
    read_at_offset(map.as_slice(), offset, data)
}

} // verus!
