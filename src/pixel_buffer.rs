use crate::color::{alpha_of, blue_of, green_of, red_of, unpack};
use crate::settings::{OpcChannel, Settings};
use vstd::prelude::*;

verus! {

/// `n` zero bytes.
pub open spec fn zeros(n: int) -> Seq<u8> {
    Seq::new(n as nat, |i: int| 0u8)
}

/// High byte of the low sixteen bits of `v`.
pub open spec fn high_byte(v: int) -> u8 {
    ((v % 0x1_0000) / 0x100) as u8
}

/// Low byte of `v`.
pub open spec fn low_byte(v: int) -> u8 {
    (v % 0x100) as u8
}

/// Adalight header for `led_count` LEDs: the cookie "Ada", the LED count less
/// one as a big-endian `u16` (0xFFFF where there is no LED), and the check byte
/// `high ^ low ^ 0x55`.
pub open spec fn serial_header(led_count: int) -> Seq<u8> {
    let h = high_byte(led_count - 1);
    let l = low_byte(led_count - 1);
    seq![0x41u8, 0x64u8, 0x61u8, h, l, h ^ l ^ 0x55u8]
}

/// OPC header: channel, command 0, and the payload length `3 * pixel_count`
/// as a big-endian `u16`.
pub open spec fn opc_header(channel: u8, pixel_count: int) -> Seq<u8> {
    seq![channel, 0u8, high_byte(3 * pixel_count), low_byte(3 * pixel_count)]
}

/// BOB header: channel, command 0xFF, the length `3 * pixel_count` as a
/// big-endian `u16`, and the system id 0x0B0B.
pub open spec fn bob_header(channel: u8, pixel_count: int) -> Seq<u8> {
    seq![
        channel,
        0xffu8,
        high_byte(3 * pixel_count),
        low_byte(3 * pixel_count),
        0x0bu8,
        0x0bu8,
    ]
}

/// Each message is its header followed by the payload: 3 bytes per LED for the
/// serial device, 3 per pixel for OPC, 4 per pixel for BOB.
pub proof fn lemma_message_lengths(n: nat, channel: u8)
    ensures
        (serial_header(n as int) + zeros(3 * n as int)).len() == 6 + 3 * n,
        (opc_header(channel, n as int) + zeros(3 * n as int)).len() == 4 + 3 * n,
        (bob_header(channel, n as int) + zeros(4 * n as int)).len() == 6 + 4 * n,
{
}

/// The sixth byte of the serial header is the check byte of the two length
/// bytes before it, which encode the LED count less one.
pub proof fn lemma_serial_check_byte(led_count: int)
    ensures
        serial_header(led_count)[3] == high_byte(led_count - 1),
        serial_header(led_count)[4] == low_byte(led_count - 1),
        serial_header(led_count)[5] == serial_header(led_count)[3] ^ serial_header(led_count)[4]
            ^ 0x55u8,
{
}

/// A message buffer of fixed size: a header, then the pixel payload, filled
/// through a cursor that starts right after the header.
pub struct PixelBuffer {
    buffer: Vec<u8>,
    alpha_channel: bool,
    header_len: usize,
    position: usize,
}

/// Append `n` zero bytes.
fn push_zeros(buffer: &mut Vec<u8>, n: usize)
    ensures
        final(buffer)@ == old(buffer)@ + zeros(n as int),
{
    let mut i: usize = 0;
    while i < n
        invariant
            i <= n,
            buffer@ == old(buffer)@ + zeros(i as int),
        decreases n - i,
    {
        buffer.push(0);
        i = i + 1;
        assert(buffer@ =~= old(buffer)@ + zeros(i as int));
    }
}

/// High and low bytes of the low sixteen bits of `v`.
fn split_u16(v: usize) -> (r: (u8, u8))
    ensures
        r.0 == high_byte(v as int),
        r.1 == low_byte(v as int),
{
    let w = v % 0x1_0000;
    assert(w % 0x100 == v % 0x100) by {
        vstd::arithmetic::div_mod::lemma_mod_mod(v as int, 0x100, 0x100);
    }
    ((w / 0x100) as u8, (w % 0x100) as u8)
}

impl PixelBuffer {
    /// All the bytes: header and payload.
    pub closed spec fn bytes(&self) -> Seq<u8> {
        self.buffer@
    }

    /// Index of the next payload byte to write.
    pub closed spec fn cursor(&self) -> int {
        self.position as int
    }

    /// Length of the header.
    pub closed spec fn header_len(&self) -> int {
        self.header_len as int
    }

    /// Whether each pixel carries an alpha byte.
    pub closed spec fn has_alpha(&self) -> bool {
        self.alpha_channel
    }

    /// Bytes per pixel.
    pub open spec fn width(&self) -> int {
        if self.has_alpha() {
            4
        } else {
            3
        }
    }

    /// The cursor lies between the end of the header and the end of the buffer.
    pub closed spec fn wf(&self) -> bool {
        &&& self.header_len <= self.position <= self.buffer@.len()
    }

    fn with_header(header: Vec<u8>, payload: usize, alpha_channel: bool) -> (r: Self)
        requires
            header@.len() + payload <= usize::MAX,
        ensures
            r.wf(),
            r.bytes() == header@ + zeros(payload as int),
            r.cursor() == header@.len(),
            r.header_len() == header@.len(),
            r.has_alpha() == alpha_channel,
    {
        let header_len = header.len();
        let mut buffer = header;
        push_zeros(&mut buffer, payload);
        PixelBuffer { buffer, alpha_channel, header_len, position: header_len }
    }

    /// Buffer for the Adalight device on the serial port: the header, then three
    /// bytes for each LED.
    pub fn new_serial_buffer(settings: &Settings) -> (r: Self)
        requires
            settings.wf(),
        ensures
            r.wf(),
            r.bytes() == serial_header(settings.total_led_count as int) + zeros(
                3 * settings.total_led_count,
            ),
            r.cursor() == 6,
            r.header_len() == 6,
            !r.has_alpha(),
    {
        let count = settings.get_total_led_count();
        // with no LED the count less one wraps to 0xFFFF
        let (high, low) = split_u16(if count == 0 {
            0xffff
        } else {
            count - 1
        });
        let check = high ^ low ^ 0x55u8;
        let header = vec![0x41u8, 0x64u8, 0x61u8, high, low, check];
        Self::with_header(header, 3 * count, false)
    }

    /// Buffer for an OPC server: the header, then three bytes for each pixel of
    /// the channel.
    pub fn new_opc_buffer(opc_channel: &OpcChannel) -> (r: Self)
        requires
            opc_channel.wf(),
        ensures
            r.wf(),
            r.bytes() == opc_header(opc_channel.channel, opc_channel.total_pixel_count as int)
                + zeros(3 * opc_channel.total_pixel_count),
            r.cursor() == 4,
            r.header_len() == 4,
            !r.has_alpha(),
    {
        let count = opc_channel.get_total_pixel_count();
        let (high, low) = split_u16(3 * count);
        let header = vec![opc_channel.channel, 0u8, high, low];
        Self::with_header(header, 3 * count, false)
    }

    /// Buffer for an OPC server that takes the BOB extension: the header, then
    /// four bytes (with alpha) for each pixel of the channel.
    pub fn new_bob_buffer(opc_channel: &OpcChannel) -> (r: Self)
        requires
            opc_channel.wf(),
        ensures
            r.wf(),
            r.bytes() == bob_header(opc_channel.channel, opc_channel.total_pixel_count as int)
                + zeros(4 * opc_channel.total_pixel_count),
            r.cursor() == 6,
            r.header_len() == 6,
            r.has_alpha(),
    {
        let count = opc_channel.get_total_pixel_count();
        let (high, low) = split_u16(3 * count);
        let (id_high, id_low) = split_u16(0x0b0b);
        let header = vec![opc_channel.channel, 0xffu8, high, low, id_high, id_low];
        Self::with_header(header, 4 * count, true)
    }

    /// Write one pixel at the cursor: red, green and blue, then alpha where the
    /// buffer carries it.
    pub fn add(&mut self, rgba_pixel: u32)
        requires
            old(self).wf(),
            old(self).cursor() + old(self).width() <= old(self).bytes().len(),
        ensures
            final(self).wf(),
            final(self).header_len() == old(self).header_len(),
            final(self).has_alpha() == old(self).has_alpha(),
            final(self).cursor() == old(self).cursor() + old(self).width(),
            final(self).bytes().len() == old(self).bytes().len(),
            forall|i: int|
                0 <= i < old(self).bytes().len() && !(old(self).cursor() <= i < old(
                    self,
                ).cursor() + old(self).width()) ==> final(self).bytes()[i] == old(
                    self,
                ).bytes()[i],
            final(self).bytes()[old(self).cursor()] == red_of(rgba_pixel),
            final(self).bytes()[old(self).cursor() + 1] == green_of(rgba_pixel),
            final(self).bytes()[old(self).cursor() + 2] == blue_of(rgba_pixel),
            old(self).has_alpha() ==> final(self).bytes()[old(self).cursor() + 3] == alpha_of(
                rgba_pixel,
            ),
    {
        let (r, g, b, a) = unpack(rgba_pixel);
        let size = self.buffer.len();
        assert(self.position + 3 <= size);
        self.buffer.set(self.position, r);
        self.position = self.position + 1;
        self.buffer.set(self.position, g);
        self.position = self.position + 1;
        self.buffer.set(self.position, b);
        self.position = self.position + 1;
        if self.alpha_channel {
            self.buffer.set(self.position, a);
            self.position = self.position + 1;
        }
    }

    /// Move the cursor back to the end of the header and zero the payload.
    pub fn clear(&mut self)
        requires
            old(self).wf(),
        ensures
            final(self).wf(),
            final(self).header_len() == old(self).header_len(),
            final(self).has_alpha() == old(self).has_alpha(),
            final(self).cursor() == old(self).header_len(),
            final(self).bytes() == old(self).bytes().take(old(self).header_len()) + zeros(
                old(self).bytes().len() - old(self).header_len(),
            ),
            final(self).bytes().len() == old(self).bytes().len(),
            final(self).bytes().take(old(self).header_len()) == old(self).bytes().take(
                old(self).header_len(),
            ),
    {
        let size = self.buffer.len();
        let mut i: usize = self.header_len;
        while i < size
            invariant
                self.header_len <= i <= size,
                size == self.buffer@.len(),
                self.header_len == old(self).header_len,
                self.alpha_channel == old(self).alpha_channel,
                self.header_len <= self.position <= size,
                self.buffer@.take(self.header_len as int) == old(self).buffer@.take(
                    self.header_len as int,
                ),
                forall|k: int| self.header_len <= k < i ==> self.buffer@[k] == 0,
            decreases size - i,
        {
            self.buffer.set(i, 0);
            i = i + 1;
        }
        self.position = self.header_len;
        assert(self.buffer@ =~= old(self).buffer@.take(self.header_len as int) + zeros(
            size - self.header_len,
        ));
        assert(self.buffer@.take(self.header_len as int) =~= old(self).buffer@.take(
            self.header_len as int,
        ));
    }

    /// All the bytes of the message, header included.
    pub fn data(&self) -> (r: &[u8])
        ensures
            r@ == self.bytes(),
    {
        self.buffer.as_slice()
    }
}

/// Byte `c` of the encoding of pixel `color`: red, green, blue, then alpha.
pub open spec fn pixel_byte(color: u32, c: int) -> u8 {
    if c == 0 {
        red_of(color)
    } else if c == 1 {
        green_of(color)
    } else if c == 2 {
        blue_of(color)
    } else {
        alpha_of(color)
    }
}

impl PixelBuffer {
    /// The payload holds `colors`, one pixel after another, from the end of the header.
    pub open spec fn holds(&self, colors: Seq<u32>) -> bool {
        &&& self.bytes().len() == self.header_len() + self.width() * colors.len()
        &&& forall|k: int, c: int|
            0 <= k < colors.len() && 0 <= c < self.width() ==> #[trigger] self.bytes()[
                self.header_len() + self.width() * k + c] == pixel_byte(colors[k], c)
    }

    /// Clear the buffer, then write `colors` from the start of the payload.
    pub fn write_pixels(&mut self, colors: &Vec<u32>)
        requires
            old(self).wf(),
            old(self).bytes().len() == old(self).header_len() + old(self).width()
                * colors@.len(),
        ensures
            final(self).wf(),
            final(self).header_len() == old(self).header_len(),
            final(self).has_alpha() == old(self).has_alpha(),
            final(self).bytes().take(old(self).header_len()) == old(self).bytes().take(
                old(self).header_len(),
            ),
            final(self).holds(colors@),
    {
        self.clear();
        let ghost h = self.header_len();
        let ghost w = self.width();
        let ghost head = self.bytes().take(h);
        let mut k: usize = 0;
        while k < colors.len()
            invariant
                self.wf(),
                k <= colors@.len(),
                self.header_len() == h,
                self.width() == w,
                w == 3 || w == 4,
                self.has_alpha() == old(self).has_alpha(),
                self.cursor() == h + w * k,
                self.bytes().len() == h + w * colors@.len(),
                self.bytes().take(h) == head,
                forall|m: int, c: int|
                    0 <= m < k && 0 <= c < w ==> #[trigger] self.bytes()[h + w * m + c]
                        == pixel_byte(colors@[m], c),
            decreases colors@.len() - k,
        {
            let ghost before = self.bytes();
            assert(h + w * k + w <= h + w * colors@.len()) by (nonlinear_arith)
                requires
                    k < colors@.len(),
                    w > 0,
            ;
            self.add(colors[k]);
            proof {
                assert forall|m: int, c: int|
                    0 <= m < k + 1 && 0 <= c < w implies #[trigger] self.bytes()[h + w * m + c]
                    == pixel_byte(colors@[m], c) by {
                    if m < k {
                        assert(h + w * m + c < h + w * k) by (nonlinear_arith)
                            requires
                                0 <= m < k,
                                0 <= c < w,
                        ;
                    } else {
                        assert(w * m == w * k);
                    }
                }
                assert(self.bytes().take(h) =~= head);
                assert(w * k + w == w * (k + 1)) by (nonlinear_arith);
            }
            k = k + 1;
        }
    }
}

} // verus!
