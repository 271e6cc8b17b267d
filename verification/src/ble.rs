use vstd::prelude::*;

use trouble_host::advertise::AdStructure;

verus! {

/// Advertising flag: LE limited discoverable mode.
pub const AD_FLAG_LE_LIMITED_DISCOVERABLE: u8 = 0b00000001;

/// Advertising flag: LE general discoverable mode.
pub const LE_GENERAL_DISCOVERABLE: u8 = 0b00000010;

/// Advertising flag: BR/EDR not supported.
pub const BR_EDR_NOT_SUPPORTED: u8 = 0b00000100;

/// The most bytes of advertising data a legacy advertisement carries.
pub const ADV_DATA_LEN: usize = 31;

/// Why advertising data could not be encoded.
#[derive(Clone, Copy, Debug, PartialEq, Eq, Structural)]
pub enum AdvertiseError {
    /// The buffer is too small for the advertising structures.
    InsufficientSpace,
}

/// The encoding of a flags structure, a complete list of 16-bit service UUIDs and
/// a complete local name: each structure is its length, its type and its data.
pub open spec fn ad_encoding(flags: u8, uuids: Seq<[u8; 2]>, name: Seq<u8>) -> Seq<u8> {
    seq![0x02u8, 0x01, flags] + seq![(uuids.len() * 2 + 1) as u8, 0x03u8] + uuids.map_values(
        |u: [u8; 2]| u@,
    ).flatten() + seq![(name.len() + 1) as u8, 0x09u8] + name
}

/// Encodes advertising data by calling `AdStructure::encode_slice` of trouble-host
/// with `Flags`, `CompleteServiceUuids16` and `CompleteLocalName`, in that order.
/// Trusted, as its source shows: on success it wrote the encoding to the front of
/// `dest`, left the rest alone and returned its length; it fails exactly when the
/// encoding is longer than `dest`. What a failed call leaves in `dest` (the
/// structures that fitted) is not stated.
#[verifier::external_body]
fn encode_advertisement(flags: u8, uuids: &[[u8; 2]], name: &[u8], dest: &mut [u8]) -> (r: Result<
    usize,
    AdvertiseError,
>)
    ensures
        r is Ok <==> ad_encoding(flags, uuids@, name@).len() <= old(dest)@.len(),
        r matches Ok(n) ==> n == ad_encoding(flags, uuids@, name@).len(),
        r is Ok ==> final(dest)@ == ad_encoding(flags, uuids@, name@) + old(dest)@.skip(
            ad_encoding(flags, uuids@, name@).len() as int,
        ),
        final(dest)@.len() == old(dest)@.len(),
{
    let structures = [
        AdStructure::Flags(flags),
        AdStructure::CompleteServiceUuids16(uuids),
        AdStructure::CompleteLocalName(name),
    ];
    match AdStructure::encode_slice(&structures, dest) {
        Ok(n) => Ok(n),
        Err(_) => Err(AdvertiseError::InsufficientSpace),
    }
}

/// The flags the keyboard advertises with.
pub open spec fn advertised_flags() -> u8 {
    LE_GENERAL_DISCOVERABLE | BR_EDR_NOT_SUPPORTED | AD_FLAG_LE_LIMITED_DISCOVERABLE
}

/// The service the keyboard advertises: battery service 0x180f, little endian.
pub open spec fn advertised_uuids() -> Seq<[u8; 2]> {
    seq![[0x0fu8, 0x18u8]]
}

/// The name the keyboard advertises.
pub open spec fn advertised_name() -> Seq<u8> {
    seq![
        0x59u8, 0x6f, 0x75, 0x72, 0x20, 0x6d, 0x6f, 0x6d, 0x27, 0x73, 0x20, 0x61, 0x20, 0x68, 0x6f,
        0x65, 0x21,
    ]
}

/// Writes the keyboard's advertising data to the front of `dest` and returns its
/// length, or fails when it does not fit.
pub fn advertising_data(dest: &mut [u8]) -> (r: Result<usize, AdvertiseError>)
    ensures
        ({
            let enc = ad_encoding(advertised_flags(), advertised_uuids(), advertised_name());
            &&& r is Ok <==> enc.len() <= old(dest)@.len()
            &&& r matches Ok(n) ==> n == enc.len()
            &&& r is Ok ==> final(dest)@ == enc + old(dest)@.skip(enc.len() as int)
            &&& r matches Err(e) ==> e == AdvertiseError::InsufficientSpace
            &&& final(dest)@.len() == old(dest)@.len()
        }),
{
    let flags = LE_GENERAL_DISCOVERABLE | BR_EDR_NOT_SUPPORTED | AD_FLAG_LE_LIMITED_DISCOVERABLE;
    let uuids = [[0x0fu8, 0x18u8]];
    let name = [
        0x59u8, 0x6f, 0x75, 0x72, 0x20, 0x6d, 0x6f, 0x6d, 0x27, 0x73, 0x20, 0x61, 0x20, 0x68, 0x6f,
        0x65, 0x21,
    ];
    assert(uuids@ =~= advertised_uuids());
    assert(name@ =~= advertised_name());
    encode_advertisement(flags, &uuids, &name, dest)
}

/// The keyboard's advertising data takes 26 bytes, so it fits the 31 bytes of a
/// legacy advertisement.
pub proof fn lemma_advertising_data_fits()
    ensures
        ad_encoding(advertised_flags(), advertised_uuids(), advertised_name()).len() == 26,
        ad_encoding(advertised_flags(), advertised_uuids(), advertised_name()).len() <= ADV_DATA_LEN,
{
    let u = advertised_uuids().map_values(|u: [u8; 2]| u@);
    assert(u.len() == 1);
    assert(u[0].len() == 2);
    u.lemma_flatten_one_element();
}

/// The next value of the notification counter: one more, wrapping after 255.
pub fn next_tick(tick: u8) -> (next: u8)
    ensures
        next == (tick as int + 1) % 256,
{
    if tick == 255 {
        0
    } else {
        tick + 1
    }
}

} // verus!
