//! The printer protocol engine: it owns one transport and encodes each
//! operation as the exact byte exchanges the device expects. Every
//! operation that touches the device claims the transport first and
//! releases it afterwards, even on failure; a release failure never
//! masks the operation's own result.

use vstd::prelude::*;

use crate::backend::Backend;
use crate::chunk::{
    chunk_sends, lemma_sends_for_len, lemma_sends_for_snoc, lemma_sends_for_take, sends_for,
    split_chunks,
};
use crate::doc::Document;
use crate::proto::{
    battery_cmd, build_image_packet, build_print_packet, cmd4, concentration_cmd, feed_cmd,
    firmware_cmd, hardware_cmd, image_packet, ip_cmd, mac_cmd, name_cmd, parse_battery, parse_mac,
    print_packet, reset_cmd, serial_cmd, trailing_cmd, MacAddr,
};
use crate::PrinterError;
use vstd::arithmetic::div_mod::lemma_fundamental_div_mod;
use vstd::string::StringSliceAdditionalSpecFns;

verus! {

/// What a successful `from_utf8_lossy` conversion of the given bytes
/// reads as; the result is a function of the bytes alone.
pub uninterp spec fn lossy_text(b: Seq<u8>) -> Seq<char>;

/// Relies on `String::from_utf8_lossy`: the result depends on the bytes
/// alone, and an empty input yields an empty string.
#[verifier::external_body]
fn utf8_lossy(bytes: &[u8]) -> (r: String)
    ensures
        r@ == lossy_text(bytes@),
        bytes@.len() == 0 ==> r@.len() == 0,
{
    String::from_utf8_lossy(bytes).into_owned()
}

/// The bytes of `text` that survive the text-print filter: printable
/// ASCII and the line feed; everything else is discarded. Characters
/// outside ASCII are encoded as bytes of `0x80` and above, so filtering
/// the UTF-8 bytes keeps exactly the printable ASCII characters.
pub open spec fn printable_filter(b: Seq<u8>) -> Seq<u8> {
    b.filter(|x: u8| x == 0x0a || (0x20 <= x && x <= 0x7f))
}

/// Valid arguments for a single-image print: a non-zero width divisible
/// by 8, a height (derived from the buffer length) that fits one byte,
/// and a buffer of exactly `height` whole rows.
pub open spec fn image_args_ok(len: nat, width: u16) -> bool {
    &&& width != 0
    &&& width % 8 == 0
    &&& len / ((width / 8) as nat) <= 255
    &&& len % ((width / 8) as nat) == 0
}

/// A printer, owning exactly one transport.
///
/// Every operation is a self-contained command exchange: the printer
/// keeps no session state besides the transport handle. Abstractly an
/// operation appends the buffers it sends to the transport's send log.
pub struct Printer<B: Backend> {
    backend: B,
}

impl<B: Backend> Printer<B> {
    /// The log of buffers this printer's transport has sent, oldest
    /// first.
    pub closed spec fn sent(&self) -> Seq<Seq<u8>> {
        self.backend.sent()
    }

    /// Construct a new printer using `backend` as its transport.
    pub fn new(backend: B) -> (r: Printer<B>)
        ensures
            r.sent() == backend.sent(),
    {
        Printer { backend }
    }

    /// The transport this printer drives.
    pub fn backend(&self) -> (r: &B)
        ensures
            r.sent() == self.sent(),
    {
        &self.backend
    }

    fn send(&mut self, buf: &[u8], timeout_s: u64) -> (r: Result<(), PrinterError>)
        requires
            timeout_s <= 3600,
        ensures
            r is Ok ==> final(self).sent() == old(self).sent().push(buf@),
            r is Err ==> final(self).sent() == old(self).sent(),
    {
        self.backend.send(buf, timeout_s * 1000)
    }

    fn recv(&mut self, buf: &mut Vec<u8>, timeout_s: u64) -> (r: Result<usize, PrinterError>)
        requires
            timeout_s <= 3600,
        ensures
            final(self).sent() == old(self).sent(),
            final(buf)@.len() == old(buf)@.len(),
            r matches Ok(n) ==> n <= old(buf)@.len(),
    {
        self.backend.recv(buf, timeout_s * 1000)
    }

    /// Claim the transport, send a command, read up to 1024 bytes of
    /// response within a short timeout, and release the transport.
    fn query(&mut self, cmd: &[u8]) -> (r: Result<Vec<u8>, PrinterError>)
        ensures
            r is Ok ==> final(self).sent() == old(self).sent().push(cmd@),
            r is Err ==> final(self).sent() == old(self).sent() || final(self).sent() == old(self).sent().push(cmd@),
    {
        match self.backend.claim() {
            Ok(()) => {},
            Err(e) => {
                return Err(e);
            },
        }
        let r = self.query_exchange(cmd);
        let _ = self.backend.release();
        r
    }

    fn query_exchange(&mut self, cmd: &[u8]) -> (r: Result<Vec<u8>, PrinterError>)
        ensures
            r is Ok ==> final(self).sent() == old(self).sent().push(cmd@),
            r is Err ==> final(self).sent() == old(self).sent() || final(self).sent() == old(self).sent().push(cmd@),
    {
        match self.send(cmd, 3) {
            Ok(()) => {},
            Err(e) => {
                return Err(e);
            },
        }
        let mut buf: Vec<u8> = vec![0u8; 1024];
        let n = match self.recv(&mut buf, 3) {
            Ok(n) => n,
            Err(e) => {
                return Err(e);
            },
        };
        buf.truncate(n);
        Ok(buf)
    }

    /// Send a command and read the response as text.
    fn query_string(&mut self, cmd: &[u8]) -> (r: Result<String, PrinterError>)
        ensures
            r is Ok ==> final(self).sent() == old(self).sent().push(cmd@),
            r is Err ==> final(self).sent() == old(self).sent() || final(self).sent() == old(self).sent().push(cmd@),
    {
        match self.query(cmd) {
            Ok(buf) => Ok(utf8_lossy(buf.as_slice())),
            Err(e) => Err(e),
        }
    }

    /// Get the printer's "IP" string.
    pub fn get_ip(&mut self) -> (r: Result<String, PrinterError>)
        ensures
            r is Ok ==> final(self).sent() == old(self).sent().push(ip_cmd()),
            r is Err ==> final(self).sent() == old(self).sent() || final(self).sent() == old(self).sent().push(ip_cmd()),
    {
        let cmd = cmd4(0x10, 0xff, 0x20, 0xf0);
        proof {
            assert(cmd@ =~= ip_cmd());
        }
        self.query_string(cmd.as_slice())
    }

    /// Get the printer's firmware version.
    pub fn get_firmware_ver(&mut self) -> (r: Result<String, PrinterError>)
        ensures
            r is Ok ==> final(self).sent() == old(self).sent().push(firmware_cmd()),
            r is Err ==> final(self).sent() == old(self).sent() || final(self).sent() == old(self).sent().push(firmware_cmd()),
    {
        let cmd = cmd4(0x10, 0xff, 0x20, 0xf1);
        proof {
            assert(cmd@ =~= firmware_cmd());
        }
        self.query_string(cmd.as_slice())
    }

    /// Get the printer's serial number.
    pub fn get_serial(&mut self) -> (r: Result<String, PrinterError>)
        ensures
            r is Ok ==> final(self).sent() == old(self).sent().push(serial_cmd()),
            r is Err ==> final(self).sent() == old(self).sent() || final(self).sent() == old(self).sent().push(serial_cmd()),
    {
        let cmd = cmd4(0x10, 0xff, 0x20, 0xf2);
        proof {
            assert(cmd@ =~= serial_cmd());
        }
        self.query_string(cmd.as_slice())
    }

    /// Get the printer's hardware version.
    pub fn get_hardware_ver(&mut self) -> (r: Result<String, PrinterError>)
        ensures
            r is Ok ==> final(self).sent() == old(self).sent().push(hardware_cmd()),
            r is Err ==> final(self).sent() == old(self).sent() || final(self).sent() == old(self).sent().push(hardware_cmd()),
    {
        let cmd = cmd4(0x10, 0xff, 0x30, 0x10);
        proof {
            assert(cmd@ =~= hardware_cmd());
        }
        self.query_string(cmd.as_slice())
    }

    /// Get the printer's name.
    pub fn get_name(&mut self) -> (r: Result<String, PrinterError>)
        ensures
            r is Ok ==> final(self).sent() == old(self).sent().push(name_cmd()),
            r is Err ==> final(self).sent() == old(self).sent() || final(self).sent() == old(self).sent().push(name_cmd()),
    {
        let cmd = cmd4(0x10, 0xff, 0x30, 0x11);
        proof {
            assert(cmd@ =~= name_cmd());
        }
        self.query_string(cmd.as_slice())
    }

    /// Get the printer's MAC address: the first six response bytes (the
    /// device echoes the address twice); a shorter response is rejected.
    pub fn get_mac(&mut self) -> (r: Result<MacAddr, PrinterError>)
        ensures
            r is Ok ==> final(self).sent() == old(self).sent().push(mac_cmd()),
            r is Err ==> final(self).sent() == old(self).sent() || final(self).sent() == old(self).sent().push(mac_cmd()),
    {
        let cmd = cmd4(0x10, 0xff, 0x30, 0x12);
        proof {
            assert(cmd@ =~= mac_cmd());
        }
        let buf = match self.query(cmd.as_slice()) {
            Ok(b) => b,
            Err(e) => {
                return Err(e);
            },
        };
        parse_mac(buf.as_slice())
    }

    /// Get the printer's battery state: a two-byte response whose second
    /// byte is the percentage; any other length is rejected.
    pub fn get_battery(&mut self) -> (r: Result<u8, PrinterError>)
        ensures
            r is Ok ==> final(self).sent() == old(self).sent().push(battery_cmd()),
            r is Err ==> final(self).sent() == old(self).sent() || final(self).sent() == old(self).sent().push(battery_cmd()),
    {
        let cmd = cmd4(0x10, 0xff, 0x50, 0xf1);
        proof {
            assert(cmd@ =~= battery_cmd());
        }
        let buf = match self.query(cmd.as_slice()) {
            Ok(b) => b,
            Err(e) => {
                return Err(e);
            },
        };
        parse_battery(buf.as_slice())
    }

    /// Set the printing concentration (darkness). Only levels 0, 1 and 2
    /// are valid; any other value is rejected before any I/O.
    pub fn set_concentration(&mut self, c: u8) -> (r: Result<(), PrinterError>)
        ensures
            c > 2 ==> r == Err::<(), PrinterError>(PrinterError::InvalidArgument) && final(self).sent() == old(self).sent(),
            c <= 2 && r is Ok ==> final(self).sent() == old(self).sent().push(concentration_cmd(c)),
            c <= 2 && r is Err ==> final(self).sent() == old(self).sent(),
    {
        if c > 2 {
            return Err(PrinterError::InvalidArgument);
        }
        let mut cmd = cmd4(0x10, 0xff, 0x10, 0x00);
        cmd.push(c);
        proof {
            assert(cmd@ =~= concentration_cmd(c));
        }
        match self.backend.claim() {
            Ok(()) => {},
            Err(e) => {
                return Err(e);
            },
        }
        let r = self.send(cmd.as_slice(), 1);
        let _ = self.backend.release();
        r
    }

    /// Reset the printer by sending the 16-byte initialization command,
    /// then drain any immediate response, ignoring its content and any
    /// receive failure. This command should precede printing.
    pub fn reset(&mut self) -> (r: Result<(), PrinterError>)
        ensures
            r is Ok ==> final(self).sent() == old(self).sent().push(reset_cmd()),
            r is Err ==> final(self).sent() == old(self).sent(),
    {
        let mut cmd = cmd4(0x10, 0xff, 0xfe, 0x01);
        let mut i: usize = 0;
        while i < 12
            invariant
                i <= 12,
                cmd@.len() == 4 + i,
                cmd@ == reset_cmd().take(4 + i),
            decreases 12 - i,
        {
            cmd.push(0x00);
            proof {
                assert(reset_cmd().take(4 + i as int).push(0x00u8) =~= reset_cmd().take(4 + i + 1));
            }
            i = i + 1;
        }
        proof {
            assert(reset_cmd().take(16) =~= reset_cmd());
        }
        match self.backend.claim() {
            Ok(()) => {},
            Err(e) => {
                return Err(e);
            },
        }
        let r = self.reset_exchange(cmd.as_slice());
        let _ = self.backend.release();
        r
    }

    fn reset_exchange(&mut self, cmd: &[u8]) -> (r: Result<(), PrinterError>)
        ensures
            r is Ok ==> final(self).sent() == old(self).sent().push(cmd@),
            r is Err ==> final(self).sent() == old(self).sent(),
    {
        match self.send(cmd, 3) {
            Ok(()) => {},
            Err(e) => {
                return Err(e);
            },
        }
        let mut drain: Vec<u8> = vec![0u8; 128];
        let _ = self.recv(&mut drain, 1);
        Ok(())
    }

    /// Print ASCII text: characters outside printable ASCII and the line
    /// feed are discarded, and the surviving bytes are sent as one write.
    pub fn print_text(&mut self, text: &str) -> (r: Result<(), PrinterError>)
        ensures
            r is Ok ==> final(self).sent() == old(self).sent().push(printable_filter(
                text.spec_bytes(),
            )),
            r is Err ==> final(self).sent() == old(self).sent(),
    {
        let bytes: &[u8] = text.as_bytes();
        let n = bytes.len();
        let mut v: Vec<u8> = Vec::new();
        let mut i: usize = 0;
        proof {
            reveal_with_fuel(Seq::<_>::filter, 2);
            assert(bytes@.take(0) =~= Seq::<u8>::empty());
            assert(printable_filter(Seq::<u8>::empty()) =~= Seq::<u8>::empty());
        }
        while i < n
            invariant
                i <= n,
                n == bytes@.len(),
                v@ == printable_filter(bytes@.take(i as int)),
            decreases n - i,
        {
            let b = bytes[i];
            proof {
                reveal_with_fuel(Seq::<_>::filter, 2);
                let prefix = bytes@.take(i + 1);
                assert(prefix.drop_last() =~= bytes@.take(i as int));
                assert(prefix.last() == bytes@[i as int]);
            }
            if b == 0x0a || (0x20 <= b && b <= 0x7f) {
                v.push(b);
            }
            i = i + 1;
        }
        proof {
            assert(bytes@.take(n as int) =~= bytes@);
        }
        match self.backend.claim() {
            Ok(()) => {},
            Err(e) => {
                return Err(e);
            },
        }
        let r = self.send(v.as_slice(), 30);
        let _ = self.backend.release();
        r
    }

    /// Derive the row byte count and the height of an image print from
    /// the buffer length and width, rejecting any invalid combination:
    /// width zero or not divisible by 8, a height over 255, or a buffer
    /// that does not hold whole rows.
    fn image_dims(len: usize, width: u16) -> (r: Result<(usize, usize), PrinterError>)
        ensures
            image_args_ok(len as nat, width) ==> (r matches Ok(d) && d.0 == (width / 8) as usize
                && d.0 > 0 && d.0 < 65536 && d.1 == len as int / (d.0 as int) && d.1 < 256
                && len == d.0 * d.1),
            !image_args_ok(len as nat, width) ==> r == Err::<(usize, usize), PrinterError>(
                PrinterError::InvalidArgument,
            ),
    {
        if width == 0 || width % 8 != 0 {
            return Err(PrinterError::InvalidArgument);
        }
        let rb = (width / 8) as usize;
        let h = len / rb;
        proof {
            lemma_fundamental_div_mod(len as int, rb as int);
        }
        if h > 255 {
            return Err(PrinterError::InvalidArgument);
        }
        if len != rb * h {
            return Err(PrinterError::InvalidArgument);
        }
        Ok((rb, h))
    }

    /// Send one image packet of `h` rows of `rb` bytes followed by the
    /// trailing command. The transport must already be claimed.
    fn send_image(&mut self, pixels: &[u8], rb: usize, h: usize) -> (r: Result<(), PrinterError>)
        requires
            rb < 65536,
            h < 256,
        ensures
            r is Ok ==> final(self).sent() == old(self).sent() + seq![
                image_packet(pixels@, rb as nat, h as nat),
                trailing_cmd(),
            ],
            r is Err ==> final(self).sent() == old(self).sent() || final(self).sent() == old(self).sent().push(image_packet(pixels@, rb as nat, h as nat)),
    {
        let packet = build_image_packet(pixels, rb, h);
        match self.send(packet.as_slice(), 60) {
            Ok(()) => {},
            Err(e) => {
                return Err(e);
            },
        }
        let t = cmd4(0x10, 0xff, 0xfe, 0x45);
        proof {
            assert(t@ =~= trailing_cmd());
        }
        match self.send(t.as_slice(), 1) {
            Ok(()) => {},
            Err(e) => {
                return Err(e);
            },
        }
        proof {
            assert(old(self).sent().push(packet@).push(t@) =~= old(self).sent() + seq![
                packet@,
                t@,
            ]);
        }
        Ok(())
    }

    /// Print raw pixels as a single image packet followed by the trailing
    /// command. The width must be non-zero and divisible by 8, the buffer
    /// must hold whole rows, and the height must fit one byte; invalid
    /// arguments are rejected before any I/O.
    pub fn print_image(&mut self, pixels: &[u8], width: u16) -> (r: Result<(), PrinterError>)
        ensures
            !image_args_ok(pixels@.len(), width) ==> r == Err::<(), PrinterError>(
                PrinterError::InvalidArgument,
            ) && final(self).sent() == old(self).sent(),
            image_args_ok(pixels@.len(), width) && r is Ok ==> final(self).sent() == old(self).sent() + seq![
                image_packet(
                    pixels@,
                    (width / 8) as nat,
                    pixels@.len() / ((width / 8) as nat),
                ),
                trailing_cmd(),
            ],
            image_args_ok(pixels@.len(), width) && r is Err ==> final(self).sent() == old(self).sent() || final(self).sent() == old(self).sent().push(
                image_packet(
                    pixels@,
                    (width / 8) as nat,
                    pixels@.len() / ((width / 8) as nat),
                ),
            ),
    {
        let (rb, h) = match Self::image_dims(pixels.len(), width) {
            Ok(d) => d,
            Err(e) => {
                return Err(e);
            },
        };
        match self.backend.claim() {
            Ok(()) => {},
            Err(e) => {
                return Err(e);
            },
        }
        let r = self.send_image(pixels, rb, h);
        let _ = self.backend.release();
        r
    }

    /// Print pixels in chunks of `chunk_height` rows with a pause of
    /// `delay_ms` after each chunk, so that long documents cannot
    /// overheat the print head. The last chunk may be shorter. This
    /// throttling protects the hardware; callers printing tall documents
    /// should come through here rather than through a single image print.
    #[verifier::loop_isolation(false)]
    pub fn print_image_chunked_ext(
        &mut self,
        pixels: &[u8],
        width: u16,
        chunk_height: u16,
        delay_ms: u64,
    ) -> (r: Result<(), PrinterError>)
        ensures
            width == 0 || width % 8 != 0 || chunk_height == 0 ==> r == Err::<(), PrinterError>(
                PrinterError::InvalidArgument,
            ) && final(self).sent() == old(self).sent(),
            !(width == 0 || width % 8 != 0 || chunk_height == 0) ==> {
                let cs = chunk_sends(
                    pixels@,
                    (width / 8) as nat,
                    (width / 8) as nat * chunk_height as nat,
                );
                &&& (r is Ok ==> final(self).sent() == old(self).sent() + cs)
                &&& exists|k: int|
                    0 <= k <= cs.len() && final(self).sent() == old(self).sent() + cs.take(k)
            },
    {
        if width == 0 || width % 8 != 0 || chunk_height == 0 {
            return Err(PrinterError::InvalidArgument);
        }
        let rb = (width / 8) as usize;
        proof {
            assert(1 <= rb * (chunk_height as usize) <= 8191 * 65535) by (nonlinear_arith)
                requires
                    1 <= rb <= 8191,
                    1 <= chunk_height <= 65535,
            ;
        }
        let cb = rb * (chunk_height as usize);
        let chunks = split_chunks(pixels, cb);
        let ghost cseq = chunks@.map_values(|c: Vec<u8>| c@);
        let ghost cs = sends_for(cseq, rb as nat);
        proof {
            lemma_sends_for_len(cseq, rb as nat);
            assert(cs.take(0) =~= Seq::<Seq<u8>>::empty());
            assert(old(self).sent() + cs.take(0) =~= old(self).sent());
            assert(cb as nat == (width / 8) as nat * chunk_height as nat);
            assert(cs == chunk_sends(pixels@, (width / 8) as nat, cb as nat));
        }
        match self.backend.claim() {
            Ok(()) => {},
            Err(e) => {
                return Err(e);
            },
        }
        let m = chunks.len();
        let mut i: usize = 0;
        while i < m
            invariant
                i <= m,
                m == cseq.len(),
                m == chunks@.len(),
                cseq == chunks@.map_values(|c: Vec<u8>| c@),
                cs == sends_for(cseq, rb as nat),
                cs.len() == 2 * m,
                self.sent() == old(self).sent() + cs.take(2 * i as int),
            decreases m - i,
        {
            proof {
                lemma_sends_for_take(cseq, rb as nat, i as int);
                lemma_sends_for_take(cseq, rb as nat, i + 1);
                lemma_sends_for_snoc(cseq, rb as nat, i as int);
                assert(cs.take(2 * (i + 1)) =~= cs.take(2 * i as int) + seq![
                    image_packet(cseq[i as int], rb as nat, cseq[i as int].len() / (rb as nat)),
                    trailing_cmd(),
                ]);
            }
            let chunk = &chunks[i];
            proof {
                assert(chunk@ == cseq[i as int]);
            }
            let (crb, ch) = match Self::image_dims(chunk.len(), width) {
                Ok(d) => d,
                Err(e) => {
                    let _ = self.backend.release();
                    return Err(e);
                },
            };
            match self.send_image(chunk.as_slice(), crb, ch) {
                Ok(()) => {
                    proof {
                        assert(old(self).sent() + cs.take(2 * i as int) + seq![
                            image_packet(
                                cseq[i as int],
                                rb as nat,
                                cseq[i as int].len() / (rb as nat),
                            ),
                            trailing_cmd(),
                        ] =~= old(self).sent() + cs.take(2 * (i + 1)));
                    }
                },
                Err(e) => {
                    proof {
                        let packet = image_packet(
                            cseq[i as int],
                            rb as nat,
                            cseq[i as int].len() / (rb as nat),
                        );
                        if self.sent() == old(self).sent() + cs.take(2 * i as int) {
                            assert(0 <= 2 * i as int <= cs.len() && self.sent() == old(self).sent()
                                + cs.take(2 * i as int));
                        } else {
                            assert(cs.take(2 * i + 1) =~= cs.take(2 * i as int).push(packet));
                            assert((old(self).sent() + cs.take(2 * i as int)).push(packet)
                                =~= old(self).sent() + cs.take(2 * i + 1));
                            assert(self.sent() == old(self).sent() + cs.take(2 * i + 1));
                        }
                    }
                    let _ = self.backend.release();
                    return Err(e);
                },
            }
            self.backend.wait(delay_ms);
            i = i + 1;
        }
        let _ = self.backend.release();
        proof {
            assert(cs.take(2 * m as int) =~= cs);
            assert(cs.take(cs.len() as int) =~= cs);
            assert(0 <= cs.len() as int <= cs.len() && self.sent() == old(self).sent() + cs.take(
                cs.len() as int,
            ));
        }
        Ok(())
    }

    /// Print pixels in chunks of 24 rows with a 50 ms pause between
    /// chunks; see [`Printer::print_image_chunked_ext`].
    pub fn print_image_chunked(&mut self, pixels: &[u8], width: u16) -> (r: Result<
        (),
        PrinterError,
    >)
        ensures
            width == 0 || width % 8 != 0 ==> r == Err::<(), PrinterError>(
                PrinterError::InvalidArgument,
            ) && final(self).sent() == old(self).sent(),
            !(width == 0 || width % 8 != 0) ==> {
                let cs = chunk_sends(pixels@, (width / 8) as nat, (width / 8) as nat * 24);
                &&& (r is Ok ==> final(self).sent() == old(self).sent() + cs)
                &&& exists|k: int|
                    0 <= k <= cs.len() && final(self).sent() == old(self).sent() + cs.take(k)
            },
    {
        self.print_image_chunked_ext(pixels, width, 24, 50)
    }

    /// Print a whole document as one multi-page packet: preamble, one
    /// header and band per 24 rows (the last band zero-padded), and, when
    /// `trailing_feed` is set, a final blank feed band; the packet is sent
    /// as a single write followed by the trailing command.
    pub fn print(&mut self, doc: &Document, trailing_feed: bool) -> (r: Result<(), PrinterError>)
        ensures
            r is Ok ==> final(self).sent() == old(self).sent() + seq![
                print_packet(doc@, trailing_feed),
                trailing_cmd(),
            ],
            r is Err ==> final(self).sent() == old(self).sent() || final(self).sent() == old(self).sent().push(print_packet(doc@, trailing_feed)),
    {
        let packet = build_print_packet(doc.pixels(), trailing_feed);
        match self.backend.claim() {
            Ok(()) => {},
            Err(e) => {
                return Err(e);
            },
        }
        let r = self.print_exchange(packet.as_slice());
        let _ = self.backend.release();
        proof {
            if r is Ok {
                assert(old(self).sent().push(packet@).push(trailing_cmd()) =~= old(self).sent()
                    + seq![packet@, trailing_cmd()]);
            }
        }
        r
    }

    fn print_exchange(&mut self, packet: &[u8]) -> (r: Result<(), PrinterError>)
        ensures
            r is Ok ==> final(self).sent() == old(self).sent().push(packet@).push(trailing_cmd()),
            r is Err ==> final(self).sent() == old(self).sent() || final(self).sent() == old(self).sent().push(packet@),
    {
        match self.send(packet, 30) {
            Ok(()) => {},
            Err(e) => {
                return Err(e);
            },
        }
        let t = cmd4(0x10, 0xff, 0xfe, 0x45);
        proof {
            assert(t@ =~= trailing_cmd());
        }
        match self.send(t.as_slice(), 1) {
            Ok(()) => {},
            Err(e) => {
                return Err(e);
            },
        }
        Ok(())
    }

    /// Push out `num` rows of paper.
    pub fn push(&mut self, num: u8) -> (r: Result<(), PrinterError>)
        ensures
            r is Ok ==> final(self).sent() == old(self).sent().push(feed_cmd(num)),
            r is Err ==> final(self).sent() == old(self).sent(),
    {
        let mut cmd: Vec<u8> = Vec::new();
        cmd.push(0x1b);
        cmd.push(0x4a);
        cmd.push(num);
        proof {
            assert(cmd@ =~= feed_cmd(num));
        }
        match self.backend.claim() {
            Ok(()) => {},
            Err(e) => {
                return Err(e);
            },
        }
        let r = self.send(cmd.as_slice(), 5);
        let _ = self.backend.release();
        r
    }
}

} // verus!
