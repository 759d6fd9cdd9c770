//! Wire format of the printer's command protocol: the fixed command byte
//! sequences, the image packet layout, and the parsers for the two
//! structured query responses (battery level and MAC address).

use vstd::prelude::*;

use crate::PrinterError;

verus! {

/// The 16-byte initialization command; printing should follow a reset.
pub open spec fn reset_cmd() -> Seq<u8> {
    seq![0x10u8, 0xff, 0xfe, 0x01, 0x00, 0x00, 0x00, 0x00, 0x00, 0x00, 0x00, 0x00, 0x00, 0x00, 0x00, 0x00]
}

/// Query command: the printer's "IP" string.
pub open spec fn ip_cmd() -> Seq<u8> {
    seq![0x10u8, 0xff, 0x20, 0xf0]
}

/// Query command: firmware version string.
pub open spec fn firmware_cmd() -> Seq<u8> {
    seq![0x10u8, 0xff, 0x20, 0xf1]
}

/// Query command: serial number string.
pub open spec fn serial_cmd() -> Seq<u8> {
    seq![0x10u8, 0xff, 0x20, 0xf2]
}

/// Query command: hardware revision string.
pub open spec fn hardware_cmd() -> Seq<u8> {
    seq![0x10u8, 0xff, 0x30, 0x10]
}

/// Query command: printer name string.
pub open spec fn name_cmd() -> Seq<u8> {
    seq![0x10u8, 0xff, 0x30, 0x11]
}

/// Query command: MAC address (the device echoes it twice).
pub open spec fn mac_cmd() -> Seq<u8> {
    seq![0x10u8, 0xff, 0x30, 0x12]
}

/// Query command: battery state.
pub open spec fn battery_cmd() -> Seq<u8> {
    seq![0x10u8, 0xff, 0x50, 0xf1]
}

/// Concentration (print darkness) command for level `c`.
pub open spec fn concentration_cmd(c: u8) -> Seq<u8> {
    seq![0x10u8, 0xff, 0x10, 0x00, c]
}

/// Paper feed command for `n` rows.
pub open spec fn feed_cmd(n: u8) -> Seq<u8> {
    seq![0x1bu8, 0x4a, n]
}

/// The 4-byte command sent after every image print. Its purpose is
/// undocumented, but the vendor driver always sends it.
pub open spec fn trailing_cmd() -> Seq<u8> {
    seq![0x10u8, 0xff, 0xfe, 0x45]
}

/// The 8-byte header of a single-image packet: command id, the row byte
/// count big-endian over two bytes, then the one-byte height padded to
/// two fields.
pub open spec fn image_header(row_bytes: nat, height: nat) -> Seq<u8> {
    seq![0x1du8, 0x76, 0x30, (row_bytes / 256) as u8, (row_bytes % 256) as u8, 0x00, height as u8, 0x00]
}

/// A complete single-image packet: header followed by the raw pixel bytes.
pub open spec fn image_packet(pixels: Seq<u8>, row_bytes: nat, height: nat) -> Seq<u8> {
    image_header(row_bytes, height) + pixels
}

/// Build a 4-byte command.
pub fn cmd4(a: u8, b: u8, c: u8, d: u8) -> (r: Vec<u8>)
    ensures
        r@ == seq![a, b, c, d],
{
    let mut v: Vec<u8> = Vec::new();
    v.push(a);
    v.push(b);
    v.push(c);
    v.push(d);
    proof {
        assert(v@ =~= seq![a, b, c, d]);
    }
    v
}

/// Build a single-image packet for a pixel buffer of `height` rows of
/// `row_bytes` bytes each.
pub fn build_image_packet(pixels: &[u8], row_bytes: usize, height: usize) -> (r: Vec<u8>)
    requires
        row_bytes < 65536,
        height < 256,
    ensures
        r@ == image_packet(pixels@, row_bytes as nat, height as nat),
{
    let mut v: Vec<u8> = Vec::new();
    v.push(0x1d);
    v.push(0x76);
    v.push(0x30);
    v.push((row_bytes / 256) as u8);
    v.push((row_bytes % 256) as u8);
    v.push(0x00);
    v.push(height as u8);
    v.push(0x00);
    proof {
        assert(v@ =~= image_header(row_bytes as nat, height as nat));
    }
    v.extend_from_slice(pixels);
    v
}

/// Rows per band in the multi-page print packet.
pub const BAND_ROWS: usize = 24;

/// Bytes per band: 24 rows of 48 bytes.
pub const BAND_BYTES: usize = 1152;

/// Rows of blank paper appended by a trailing feed band.
pub const FEED_ROWS: usize = 96;

/// The fixed preamble of the multi-page print packet: the initialization
/// command followed by a reset-and-feed sequence, as captured from the
/// vendor driver.
pub open spec fn print_preamble() -> Seq<u8> {
    seq![0x10u8, 0xff, 0xfe, 0x01, 0x1b, 0x40, 0x00, 0x1b, 0x4a, 0x60]
}

/// The 8-byte header before each band of the multi-page print packet:
/// the fixed 6-byte page header, then the band height as a little-endian
/// 2-byte field.
pub open spec fn band_header(height: nat) -> Seq<u8> {
    seq![0x1du8, 0x76, 0x30, 0x00, 0x30, 0x00, (height % 256) as u8, (height / 256) as u8]
}

/// `n` zero bytes.
pub open spec fn zeros(n: nat) -> Seq<u8> {
    Seq::new(n, |i: int| 0u8)
}

/// The band section of a multi-page print packet: one header and 24 full
/// rows per band, the final short band zero-padded to a whole band.
pub open spec fn bands_of(pixels: Seq<u8>) -> Seq<u8>
    decreases pixels.len(),
{
    if pixels.len() == 0 {
        Seq::empty()
    } else if pixels.len() >= 1152 {
        band_header(24) + pixels.take(1152) + bands_of(pixels.skip(1152))
    } else {
        band_header(24) + pixels + zeros((1152 - pixels.len()) as nat)
    }
}

/// The all-zero band a trailing feed appends: blank rows that push the
/// printed page out of the device.
pub open spec fn feed_band() -> Seq<u8> {
    band_header(96) + zeros(96 * 48)
}

/// A complete multi-page print packet: preamble, every band of the
/// document, and, if a trailing feed is requested, one blank feed band.
pub open spec fn print_packet(pixels: Seq<u8>, trailing_feed: bool) -> Seq<u8> {
    print_preamble() + bands_of(pixels) + if trailing_feed {
        feed_band()
    } else {
        Seq::<u8>::empty()
    }
}

/// Append `height` as a band header to `v`.
fn push_band_header(v: &mut Vec<u8>, height: u16)
    ensures
        final(v)@ == old(v)@ + band_header(height as nat),
{
    v.push(0x1d);
    v.push(0x76);
    v.push(0x30);
    v.push(0x00);
    v.push(0x30);
    v.push(0x00);
    v.push((height % 256) as u8);
    v.push((height / 256) as u8);
    proof {
        assert(v@ =~= old(v)@ + band_header(height as nat));
    }
}

/// Append `n` zero bytes to `v`.
fn push_zeros(v: &mut Vec<u8>, n: usize)
    ensures
        final(v)@ == old(v)@ + zeros(n as nat),
{
    let mut i: usize = 0;
    while i < n
        invariant
            i <= n,
            v@ == old(v)@ + zeros(i as nat),
        decreases n - i,
    {
        v.push(0x00);
        proof {
            assert((old(v)@ + zeros(i as nat)).push(0x00u8) =~= old(v)@ + zeros((i + 1) as nat));
        }
        i = i + 1;
    }
}

/// Build the multi-page print packet for a pixel buffer.
#[verifier::loop_isolation(false)]
pub fn build_print_packet(pixels: &[u8], trailing_feed: bool) -> (r: Vec<u8>)
    ensures
        r@ == print_packet(pixels@, trailing_feed),
{
    let n = pixels.len();
    let mut v: Vec<u8> = Vec::new();
    v.push(0x10);
    v.push(0xff);
    v.push(0xfe);
    v.push(0x01);
    v.push(0x1b);
    v.push(0x40);
    v.push(0x00);
    v.push(0x1b);
    v.push(0x4a);
    v.push(0x60);
    proof {
        assert(v@ =~= print_preamble());
        assert(pixels@.skip(0) =~= pixels@);
        assert(print_preamble() + bands_of(pixels@) =~= v@ + bands_of(pixels@.skip(0)));
    }
    let mut pos: usize = 0;
    while pos < n
        invariant
            pos <= n,
            print_preamble() + bands_of(pixels@) == v@ + bands_of(pixels@.skip(pos as int)),
        decreases n - pos,
    {
        let ghost v0 = v@;
        let ghost remaining = pixels@.skip(pos as int);
        let end = if n - pos > BAND_BYTES {
            pos + BAND_BYTES
        } else {
            n
        };
        push_band_header(&mut v, 24);
        v.extend_from_slice(&pixels[pos..end]);
        if end - pos < BAND_BYTES {
            push_zeros(&mut v, BAND_BYTES - (end - pos));
        }
        proof {
            if remaining.len() >= 1152 {
                assert(remaining.take(1152) =~= pixels@.subrange(pos as int, end as int));
                assert(remaining.skip(1152) =~= pixels@.skip(end as int));
                assert(v@ =~= v0 + (band_header(24) + remaining.take(1152)));
                assert(v0 + (band_header(24) + remaining.take(1152)) + bands_of(
                    pixels@.skip(end as int),
                ) =~= v0 + bands_of(remaining));
            } else {
                assert(remaining =~= pixels@.subrange(pos as int, end as int));
                assert(v@ =~= v0 + (band_header(24) + remaining + zeros(
                    (1152 - remaining.len()) as nat,
                )));
                assert(pixels@.skip(end as int) =~= Seq::<u8>::empty());
                assert(v@ + bands_of(pixels@.skip(end as int)) =~= v0 + bands_of(remaining));
            }
        }
        pos = end;
    }
    proof {
        assert(pixels@.skip(pos as int) =~= Seq::<u8>::empty());
        assert(v@ + bands_of(pixels@.skip(pos as int)) =~= v@);
        assert(v@ =~= print_preamble() + bands_of(pixels@));
    }
    if trailing_feed {
        push_band_header(&mut v, 96);
        push_zeros(&mut v, FEED_ROWS * 48);
        proof {
            assert(v@ =~= print_packet(pixels@, trailing_feed));
        }
    } else {
        proof {
            assert(v@ =~= print_packet(pixels@, trailing_feed));
        }
    }
    v
}

/// Interpret a battery query response: exactly two bytes, the second of
/// which is the charge percentage; any other length is invalid.
pub fn parse_battery(resp: &[u8]) -> (r: Result<u8, PrinterError>)
    ensures
        resp@.len() == 2 ==> r == Ok::<u8, PrinterError>(resp@[1]),
        resp@.len() != 2 ==> r == Err::<u8, PrinterError>(PrinterError::Response),
{
    if resp.len() != 2 {
        return Err(PrinterError::Response);
    }
    Ok(resp[1])
}

/// MAC address of a printer: a fixed 6-byte identity value.
#[derive(Clone, Copy, Debug, PartialEq, Eq, PartialOrd, Ord)]
pub struct MacAddr(pub [u8; 6]);

impl View for MacAddr {
    type V = Seq<u8>;

    open spec fn view(&self) -> Seq<u8> {
        self.0@
    }
}

/// Interpret a MAC query response: the first six bytes are the address
/// (the device echoes it twice, so longer responses are fine); fewer than
/// six bytes is invalid.
pub fn parse_mac(resp: &[u8]) -> (r: Result<MacAddr, PrinterError>)
    ensures
        resp@.len() >= 6 ==> (r matches Ok(m) && m@ == resp@.subrange(0, 6)),
        resp@.len() < 6 ==> r == Err::<MacAddr, PrinterError>(PrinterError::Response),
{
    if resp.len() < 6 {
        return Err(PrinterError::Response);
    }
    let m = MacAddr([resp[0], resp[1], resp[2], resp[3], resp[4], resp[5]]);
    proof {
        assert(m@ =~= resp@.subrange(0, 6));
    }
    Ok(m)
}

/// The lower-case hexadecimal digit for a value below 16.
pub open spec fn hex_char(n: int) -> char {
    if n == 0 { '0' } else if n == 1 { '1' } else if n == 2 { '2' } else if n == 3 { '3' }
    else if n == 4 { '4' } else if n == 5 { '5' } else if n == 6 { '6' } else if n == 7 { '7' }
    else if n == 8 { '8' } else if n == 9 { '9' } else if n == 10 { 'a' } else if n == 11 { 'b' }
    else if n == 12 { 'c' } else if n == 13 { 'd' } else if n == 14 { 'e' } else { 'f' }
}

/// Two lower-case hex digits for one byte.
pub open spec fn byte_hex(b: u8) -> Seq<char> {
    seq![hex_char(b as int / 16), hex_char(b as int % 16)]
}

/// The canonical colon-separated lower-case hex text of a 6-byte MAC.
pub open spec fn mac_text(m: Seq<u8>) -> Seq<char> {
    byte_hex(m[0]) + seq![':'] + byte_hex(m[1]) + seq![':'] + byte_hex(m[2]) + seq![':']
        + byte_hex(m[3]) + seq![':'] + byte_hex(m[4]) + seq![':'] + byte_hex(m[5])
}

/// The lower-case hexadecimal digit for a value below 16, as a string slice.
fn hex_str(n: u8) -> (r: &'static str)
    requires
        n < 16,
    ensures
        r@ == seq![hex_char(n as int)],
{
    proof {
        reveal_strlit("0");
        reveal_strlit("1");
        reveal_strlit("2");
        reveal_strlit("3");
        reveal_strlit("4");
        reveal_strlit("5");
        reveal_strlit("6");
        reveal_strlit("7");
        reveal_strlit("8");
        reveal_strlit("9");
        reveal_strlit("a");
        reveal_strlit("b");
        reveal_strlit("c");
        reveal_strlit("d");
        reveal_strlit("e");
        reveal_strlit("f");
    }
    if n == 0 { "0" } else if n == 1 { "1" } else if n == 2 { "2" } else if n == 3 { "3" }
    else if n == 4 { "4" } else if n == 5 { "5" } else if n == 6 { "6" } else if n == 7 { "7" }
    else if n == 8 { "8" } else if n == 9 { "9" } else if n == 10 { "a" } else if n == 11 { "b" }
    else if n == 12 { "c" } else if n == 13 { "d" } else if n == 14 { "e" } else { "f" }
}

/// Append the two hex digits of `b` to `s`.
fn push_byte_hex(s: &mut String, b: u8)
    ensures
        final(s)@ == old(s)@ + byte_hex(b),
{
    s.append(hex_str(b / 16));
    s.append(hex_str(b % 16));
}

impl MacAddr {
    /// The colon-separated lower-case hex text of this address, such as
    /// `aa:bb:cc:dd:ee:ff`.
    pub fn to_text(&self) -> (r: String)
        ensures
            r@ == mac_text(self@),
    {
        proof {
            reveal_strlit(":");
        }
        let mut s = String::new();
        push_byte_hex(&mut s, self.0[0]);
        s.append(":");
        push_byte_hex(&mut s, self.0[1]);
        s.append(":");
        push_byte_hex(&mut s, self.0[2]);
        s.append(":");
        push_byte_hex(&mut s, self.0[3]);
        s.append(":");
        push_byte_hex(&mut s, self.0[4]);
        s.append(":");
        push_byte_hex(&mut s, self.0[5]);
        proof {
            assert(s@ =~= mac_text(self@));
        }
        s
    }
}

} // verus!
