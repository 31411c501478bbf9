use vstd::prelude::*;

use crate::error::DemError;
use vstd::string::StringSliceAdditionalSpecFns;
use vstd::utf8::*;

verus! {

/// Value of the big-endian two's-complement 16-bit integer whose high byte is
/// `hi` and whose low byte is `lo`.
pub open spec fn be_i16(hi: u8, lo: u8) -> int {
    let u = hi as int * 256 + lo as int;
    if u >= 32768 { u - 65536 } else { u }
}

/// Reads the big-endian `i16` stored at `buf[offset]`, `buf[offset + 1]`
/// with `byteorder`'s `BigEndian::read_i16`, which returns `read_u16(buf) as i16`,
/// where `read_u16` is `u16::from_be_bytes` of the first two bytes.
#[verifier::external_body]
fn read_be_i16(buf: &[u8], offset: usize) -> (v: i16)
    requires
        offset + 2 <= buf@.len(),
    ensures
        v as int == be_i16(buf@[offset as int], buf@[offset + 1]),
{
    <byteorder::BigEndian as byteorder::ByteOrder>::read_i16(&buf[offset..])
}

/// Marker that SRTM tiles store in place of a missing elevation.
pub const HGT_VOID: i16 = -32768;

/// Side length, in samples, of a tile holding `byte_len` bytes: 1201 for a
/// three-arc-second tile, 3601 for a one-arc-second tile, none otherwise. A
/// trailing odd byte is ignored.
pub open spec fn hgt_side(byte_len: nat) -> Option<nat> {
    if byte_len / 2 == 1201 * 1201 {
        Some(1201)
    } else if byte_len / 2 == 3601 * 3601 {
        Some(3601)
    } else {
        None
    }
}

/// The sample stored in the two bytes `hi`, `lo`: `None` for the void marker.
pub open spec fn hgt_sample(hi: u8, lo: u8) -> Option<i16> {
    if be_i16(hi, lo) == HGT_VOID as int {
        None
    } else {
        Some(be_i16(hi, lo) as i16)
    }
}

/// A decoded tile: `side * side` samples in row-major order, the first row
/// being the northernmost.
pub struct HgtTile {
    pub side: usize,
    pub samples: Vec<Option<i16>>,
}

/// Decodes the bytes of an `.hgt` tile.
///
/// The tile is accepted exactly when half its byte count is `1201 * 1201` or
/// `3601 * 3601`; sample `i` is the big-endian `i16` in bytes `2i` and
/// `2i + 1`, with the void marker read as a missing sample.
pub fn decode_hgt(buf: &[u8]) -> (r: Result<HgtTile, DemError>)
    ensures
        match hgt_side(buf@.len()) {
            None => r matches Err(DemError::InvalidHgtSize(n)) && n == buf@.len(),
            Some(side) => r matches Ok(tile) && {
                &&& tile.side == side
                &&& tile.samples@.len() == side * side
                &&& forall|i: int|
                    0 <= i < side * side ==> #[trigger] tile.samples@[i] == hgt_sample(
                        buf@[2 * i],
                        buf@[2 * i + 1],
                    )
            },
        },
{
    let bytes = buf.len();
    let side: usize = if bytes / 2 == 1201 * 1201 {
        1201
    } else if bytes / 2 == 3601 * 3601 {
        3601
    } else {
        return Err(DemError::InvalidHgtSize(bytes));
    };
    let count: usize = side * side;
    let mut samples: Vec<Option<i16>> = Vec::with_capacity(count);
    let mut i: usize = 0;
    while i < count
        invariant
            count == side * side,
            2 * count <= buf@.len(),
            buf@.len() == bytes,
            i <= count,
            samples@.len() == i,
            forall|j: int|
                0 <= j < i ==> #[trigger] samples@[j] == hgt_sample(buf@[2 * j], buf@[2 * j + 1]),
        decreases count - i,
    {
        let v = read_be_i16(buf, 2 * i);
        if v == HGT_VOID {
            samples.push(None);
        } else {
            samples.push(Some(v));
        }
        i = i + 1;
    }
    Ok(HgtTile { side, samples })
}

/// True for the bytes of the ASCII digits `0` to `9`.
pub open spec fn is_ascii_digit_byte(b: u8) -> bool {
    0x30 <= b <= 0x39
}

/// True for `S` and `s`.
pub open spec fn is_south_marker(b: u8) -> bool {
    b == 0x53 || b == 0x73
}

/// True for `W` and `w`.
pub open spec fn is_west_marker(b: u8) -> bool {
    b == 0x57 || b == 0x77
}

/// The parts of a tile name such as `N37W122`: the latitude hemisphere, the
/// two characters that hold the latitude in degrees, the longitude
/// hemisphere, and the run of ASCII digits that holds the longitude in
/// degrees (what follows it is ignored).
pub struct HgtTileName<'a> {
    pub lat_south: bool,
    pub lat_degrees: &'a str,
    pub lon_west: bool,
    pub lon_degrees: &'a str,
}

/// The bytes of a string encode its characters, so they are valid UTF-8.
proof fn lemma_str_bytes_valid(s: &str)
    ensures
        valid_utf8(s.spec_bytes()),
{
    encode_utf8_valid_utf8(s@);
}

/// A character boundary at `start + idx` of a valid sequence is one at `idx`
/// of the suffix that starts at the boundary `start`.
proof fn lemma_boundary_in_suffix(b: Seq<u8>, start: int, idx: int)
    requires
        valid_utf8(b),
        is_char_boundary(b, start),
        is_char_boundary(b, start + idx),
        0 <= start,
        0 <= idx,
        start + idx <= b.len(),
    ensures
        valid_utf8(b.subrange(start, b.len() as int)),
        is_char_boundary(b.subrange(start, b.len() as int), idx),
{
    valid_utf8_split(b, start);
    let t = b.subrange(start, b.len() as int);
    if start + idx == b.len() {
        is_char_boundary_start_end_of_seq(t);
        assert(t.len() == idx);
    } else {
        is_char_boundary_iff_not_is_continuation_byte(b, start + idx);
        is_char_boundary_iff_not_is_continuation_byte(t, idx);
        assert(t[idx] == b[start + idx]);
    }
}

/// In a valid sequence, the byte after an ASCII byte starts a character.
proof fn lemma_boundary_after_ascii(b: Seq<u8>, k: int)
    requires
        valid_utf8(b),
        0 < k <= b.len(),
        is_leading_byte_width_1(b[k - 1]),
    ensures
        is_char_boundary(b, k),
{
    if k == b.len() {
        is_char_boundary_start_end_of_seq(b);
    } else {
        is_char_boundary_iff_is_leading_byte(b, k - 1);
        valid_utf8_split(b, k - 1);
        let t = b.subrange(k - 1, b.len() as int);
        assert(t[0] == b[k - 1]);
        assert(length_of_first_scalar(t) == 1);
        let u = pop_first_scalar(t);
        assert(valid_utf8(u));
        assert(u.len() > 0);
        is_char_boundary_start_end_of_seq(u);
        is_char_boundary_iff_not_is_continuation_byte(u, 0);
        assert(u[0] == b[k]);
        is_char_boundary_iff_not_is_continuation_byte(b, k);
    }
}

/// Splits a tile name such as `N37W122` into its parts.
///
/// The first character selects the latitude hemisphere (`S` or `s` for
/// south), the next two bytes hold the latitude, the fourth character selects
/// the longitude hemisphere (`W` or `w` for west), and the longest run of
/// ASCII digits after it holds the longitude. Only the split points are
/// demanded: bytes 1, 3 and 4 must each start a character, which makes the
/// name at least four bytes long.
pub fn parse_hgt_name(name: &str) -> (r: HgtTileName<'_>)
    requires
        is_char_boundary(name.spec_bytes(), 1),
        is_char_boundary(name.spec_bytes(), 3),
        is_char_boundary(name.spec_bytes(), 4),
    ensures
        ({
            let b = name.spec_bytes();
            let d = r.lon_degrees.spec_bytes();
            &&& r.lat_south == is_south_marker(b[0])
            &&& r.lat_degrees.spec_bytes() == b.subrange(1, 3)
            &&& r.lon_west == is_west_marker(b[3])
            &&& 4 + d.len() <= b.len()
            &&& d == b.subrange(4, 4 + d.len() as int)
            &&& forall|i: int| 0 <= i < d.len() ==> #[trigger] is_ascii_digit_byte(d[i])
            &&& (4 + d.len() == b.len() || !is_ascii_digit_byte(b[4 + d.len() as int]))
        }),
{
    let ghost b = name.spec_bytes();
    proof {
        lemma_str_bytes_valid(name);
        assert(b.len() >= 4) by {
            if b.len() < 4 {
                assert(!is_char_boundary(b, 4));
            }
        }
        lemma_boundary_in_suffix(b, 1, 2);
    }
    let (lat_sign, rest) = name.split_at(1);
    proof {
        assert(rest.spec_bytes() =~= b.subrange(1, b.len() as int));
    }
    let (lat_deg_s, rest) = rest.split_at(2);
    proof {
        assert(rest.spec_bytes() =~= b.subrange(3, b.len() as int));
        lemma_boundary_in_suffix(b, 3, 1);
    }
    let (lon_sign, lon_deg_s) = rest.split_at(1);
    proof {
        assert(lat_deg_s.spec_bytes() =~= b.subrange(1, 3));
        assert(lon_deg_s.spec_bytes() =~= b.subrange(4, b.len() as int));
    }
    let lat_sign_bytes = lat_sign.as_bytes();
    let lat_south = lat_sign_bytes[0] == 0x53u8 || lat_sign_bytes[0] == 0x73u8;
    let lon_sign_bytes = lon_sign.as_bytes();
    let lon_west = lon_sign_bytes[0] == 0x57u8 || lon_sign_bytes[0] == 0x77u8;

    let digits = lon_deg_s.as_bytes();
    let ghost e = lon_deg_s.spec_bytes();
    let mut k: usize = 0;
    while k < digits.len() && 0x30u8 <= digits[k] && digits[k] <= 0x39u8
        invariant
            digits@ == e,
            k <= e.len(),
            forall|i: int| 0 <= i < k ==> #[trigger] is_ascii_digit_byte(e[i]),
        decreases e.len() - k,
    {
        k = k + 1;
    }
    proof {
        lemma_str_bytes_valid(lon_deg_s);
        if k > 0 {
            assert(is_ascii_digit_byte(e[k - 1]));
            lemma_boundary_after_ascii(e, k as int);
        }
    }
    let (lon_digits, _) = lon_deg_s.split_at(k);
    proof {
        assert(lon_digits.spec_bytes() =~= b.subrange(4, 4 + k));
        if 4 + k < b.len() {
            assert(b[4 + k] == e[k as int]);
        }
    }
    HgtTileName { lat_south, lat_degrees: lat_deg_s, lon_west, lon_degrees: lon_digits }
}

/// A big-endian pair of bytes reads as the one 16-bit two's-complement value
/// congruent to `256 * hi + lo` modulo 2^16; the byte pair of every `i16` value
/// reads back as that value.
pub proof fn lemma_be_i16_is_twos_complement(hi: u8, lo: u8)
    ensures
        -32768 <= be_i16(hi, lo) <= 32767,
        (be_i16(hi, lo) - (256 * hi + lo)) % 65536 == 0,
        hi < 128 ==> be_i16(hi, lo) == 256 * hi + lo,
        hi >= 128 ==> be_i16(hi, lo) < 0,
{
}

/// Only the void marker is missing: a pair of bytes that does not read as
/// -32768 decodes to its own value, and the pair 0x80 0x00 (the only one that
/// reads as -32768) decodes as missing.
pub proof fn lemma_only_void_is_missing(hi: u8, lo: u8)
    ensures
        be_i16(hi, lo) != -32768 ==> hgt_sample(hi, lo) == Some(be_i16(hi, lo) as i16),
        be_i16(hi, lo) == -32768 ==> hgt_sample(hi, lo) is None,
        hgt_sample(hi, lo) is None <==> (hi == 0x80 && lo == 0),
{
}

/// A tile is accepted exactly at the two SRTM resolutions: its side is 1201
/// or 3601 and its byte count is twice the number of samples, give or take a
/// trailing byte.
pub proof fn lemma_tile_sizes(byte_len: nat)
    ensures
        hgt_side(byte_len) matches Some(side) ==> (side == 1201 || side == 3601) && 2 * side
            * side <= byte_len <= 2 * side * side + 1,
        hgt_side(byte_len) is None ==> byte_len != 2 * 1201 * 1201 && byte_len != 2 * 1201 * 1201
            + 1 && byte_len != 2 * 3601 * 3601 && byte_len != 2 * 3601 * 3601 + 1,
{
}

/// A byte counts as a longitude digit exactly when it is one of the
/// characters `0` through `9`.
pub proof fn lemma_digit_bytes(b: u8)
    ensures
        is_ascii_digit_byte(b) <==> 0 <= b - ('0' as u8) < 10,
        is_ascii_digit_byte(b) <==> ('0' as u8 <= b && b <= '9' as u8),
{
}

/// The hemisphere markers ignore ASCII case: `S`/`s` for the south, `W`/`w`
/// for the west, and nothing else.
pub proof fn lemma_hemisphere_markers(b: u8)
    ensures
        is_south_marker(b) <==> (b == 'S' as u8 || b == 's' as u8),
        is_west_marker(b) <==> (b == 'W' as u8 || b == 'w' as u8),
        is_south_marker(b) ==> !is_west_marker(b),
{
}

} // verus!
