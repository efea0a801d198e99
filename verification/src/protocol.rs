//! Every packet starts with 0xFF and most end with 0x55.
//! This module builds raw byte packets — nothing is sent here:
//! each builder returns the bytes that the serial layer writes to the port.

use vstd::prelude::*;

verus! {

/// First byte of every packet.
pub const HEADER: u8 = 0xFF;

/// Last byte of most packets, and the end-of-packet marker of the device's replies.
pub const FOOTER: u8 = 0x55;

/// Largest x coordinate (and image width) that the work area takes.
pub const MAX_WIDTH: u16 = 490;

/// Largest y coordinate (and image height) that the work area takes.
pub const MAX_HEIGHT: u16 = 490;

/// The more significant byte of `v`.
pub open spec fn high_byte(v: u16) -> u8 {
    (v / 256) as u8
}

/// The less significant byte of `v`.
pub open spec fn low_byte(v: u16) -> u8 {
    (v % 256) as u8
}

/// Splits `v` into its big-endian bytes.
fn u16_bytes(v: u16) -> (r: (u8, u8))
    ensures
        r.0 == high_byte(v),
        r.1 == low_byte(v),
        r.0 * 256 + r.1 == v,
{
    assert((v >> 8u16) == v / 256 && (v & 0xFFu16) == v % 256 && v / 256 < 256) by (bit_vector);
    ((v >> 8) as u8, (v & 0xFF) as u8)
}

// ── init packets ─────────────────────────────────────────────────────────────

/// The bytes of the ping that opens a session.
pub open spec fn spec_init_ping() -> Seq<u8> {
    seq![HEADER, 0x09, 0x5A, 0xA5]
}

pub fn init_ping() -> (r: Vec<u8>)
    ensures
        r@ == spec_init_ping(),
{
    vec![HEADER, 0x09, 0x5A, 0xA5]
}

/// The bytes of the greeting that follows the ping.
pub open spec fn spec_init_hello() -> Seq<u8> {
    seq![HEADER, 0xAA, 0x08, 0x01, 0x01, 0x5A, 0xA5, FOOTER]
}

pub fn init_hello() -> (r: Vec<u8>)
    ensures
        r@ == spec_init_hello(),
{
    vec![HEADER, 0xAA, 0x08, 0x01, 0x01, 0x5A, 0xA5, FOOTER]
}

// ── motion ───────────────────────────────────────────────────────────────────

/// The bytes of the packet that moves the head to `(x, y)`.
pub open spec fn spec_move_xy(x: u16, y: u16) -> Seq<u8> {
    seq![
        HEADER, 0xAA, 0x10, 0x05, 0x01, 0x50, 0x01,
        high_byte(x), low_byte(x), high_byte(y), low_byte(y),
        0x00, 0x00, 0x00, 0x00,
        FOOTER,
    ]
}

pub fn move_xy(x: u16, y: u16) -> (r: Vec<u8>)
    ensures
        r@ == spec_move_xy(x, y),
{
    let (xh, xl) = u16_bytes(x);
    let (yh, yl) = u16_bytes(y);
    vec![
        HEADER, 0xAA, 0x10, 0x05, 0x01, 0x50, 0x01,
        xh, xl, yh, yl,
        0x00, 0x00, 0x00, 0x00,
        FOOTER,
    ]
}


// ── preview window ───────────────────────────────────────────────────────────

/// The bytes of the packet that traces the frame of the rectangle at `(x, y)`
/// of size `w` × `h` with the laser at preview power.
pub open spec fn spec_show_window(x: u16, y: u16, w: u16, h: u16) -> Seq<u8> {
    seq![
        HEADER, 0xAA, 0x10, 0x05, 0x01, 0x50, 0x02,
        high_byte(x), low_byte(x), high_byte(y), low_byte(y),
        high_byte(w), low_byte(w), high_byte(h), low_byte(h),
        FOOTER,
    ]
}

pub fn show_window(x: u16, y: u16, w: u16, h: u16) -> (r: Vec<u8>)
    ensures
        r@ == spec_show_window(x, y, w, h),
{
    let (xh, xl) = u16_bytes(x);
    let (yh, yl) = u16_bytes(y);
    let (wh, wl) = u16_bytes(w);
    let (hh, hl) = u16_bytes(h);
    vec![
        HEADER, 0xAA, 0x10, 0x05, 0x01, 0x50, 0x02,
        xh, xl, yh, yl, wh, wl, hh, hl,
        FOOTER,
    ]
}

/// The bytes of the packet that ends the preview.
pub open spec fn spec_stop_window() -> Seq<u8> {
    seq![
        HEADER, 0xAA, 0x10, 0x05, 0x01, 0x50, 0x00,
        0x00, 0x00, 0x00, 0x00, 0x00, 0x00, 0x00, 0x00,
        FOOTER,
    ]
}

pub fn stop_window() -> (r: Vec<u8>)
    ensures
        r@ == spec_stop_window(),
{
    vec![
        HEADER, 0xAA, 0x10, 0x05, 0x01, 0x50, 0x00,
        0x00, 0x00, 0x00, 0x00, 0x00, 0x00, 0x00, 0x00,
        FOOTER,
    ]
}

// ── laser power ───────────────────────────────────────────────────────────────

/// The bytes of the packet that sets the burning power and the idle power.
pub open spec fn spec_set_power(power: u8, idle: u8) -> Seq<u8> {
    seq![HEADER, 0xAA, 0x0B, 0x03, 0x01, 0x0F, power, idle, 0x00, 0x00, FOOTER]
}

pub fn set_power(power: u8, idle: u8) -> (r: Vec<u8>)
    ensures
        r@ == spec_set_power(power, idle),
{
    vec![
        HEADER, 0xAA, 0x0B, 0x03, 0x01, 0x0F,
        power, idle,
        0x00, 0x00,
        FOOTER,
    ]
}

// ── carving control ───────────────────────────────────────────────────────────

/// The bytes of the packet that stops carving.
pub open spec fn spec_stop_carving() -> Seq<u8> {
    seq![HEADER, 0xAA, 0x08, 0x02, 0x01, 0x01, 0x02, FOOTER]
}

pub fn stop_carving() -> (r: Vec<u8>)
    ensures
        r@ == spec_stop_carving(),
{
    vec![HEADER, 0xAA, 0x08, 0x02, 0x01, 0x01, 0x02, FOOTER]
}

/// The bytes of the packet that pauses carving.
pub open spec fn spec_pause_carving() -> Seq<u8> {
    seq![HEADER, 0xAA, 0x08, 0x02, 0x01, 0x01, 0x00, FOOTER]
}

pub fn pause_carving() -> (r: Vec<u8>)
    ensures
        r@ == spec_pause_carving(),
{
    vec![HEADER, 0xAA, 0x08, 0x02, 0x01, 0x01, 0x00, FOOTER]
}

// ── image header ──────────────────────────────────────────────────────────────

/// `w` rounded up to the next multiple of 8: the width of a raster row, in pixels.
pub open spec fn round_up8(w: int) -> int {
    (w + 7) / 8 * 8
}

/// The number of raster bytes of an image of width `w` and height `h`
/// (rows padded to whole bytes), before any escaping.
pub open spec fn raster_len(w: int, h: int) -> int {
    round_up8(w) * h / 8
}

/// The bytes of the header packet that announces an image of `w` × `h`
/// pixels to be burned at `(x, y)`.  The header carries the padded width, the
/// height, the raster length in three big-endian bytes, and the true width.
pub open spec fn spec_image_info(x: u16, y: u16, w: u16, h: u16) -> Seq<u8> {
    let wr = round_up8(w as int) as u16;
    let le = raster_len(w as int, h as int);
    seq![
        HEADER, 0xAA, 0x16, 0x04, 0x02, 0x01, 0x50,
        high_byte(x), low_byte(x), high_byte(y), low_byte(y),
        high_byte(wr), low_byte(wr), high_byte(h), low_byte(h),
        0x00, ((le / 65536) % 256) as u8,
        ((le / 256) % 256) as u8, (le % 256) as u8,
        high_byte(w), low_byte(w),
        FOOTER,
    ]
}

/// Rounds `w` up to a multiple of 8 the way the protocol does, with a mask.
fn padded_width(w: u16) -> (wr: u16)
    requires
        w <= 65528,
    ensures
        wr == round_up8(w as int),
        w <= wr < w + 8,
        wr % 8 == 0,
{
    assert((((w + 7) as u16) & !7u16) == (w + 7) / 8 * 8) by (bit_vector)
        requires
            w <= 65528u16,
    ;
    (w + 7) & !7
}

/// Builds the image header; `w` must leave room for the rounding up to a
/// multiple of 8 within 16 bits.
pub fn image_info(x: u16, y: u16, w: u16, h: u16) -> (r: Vec<u8>)
    requires
        w <= 65528,
    ensures
        r@ == spec_image_info(x, y, w, h),
{
    let wr = padded_width(w);
    assert(wr as int * h as int <= 65528 * 65535) by (nonlinear_arith)
        requires
            wr <= 65528,
            h <= 65535,
    ;
    let le = (wr as u32 * h as u32) / 8;

    let (xh, xl) = u16_bytes(x);
    let (yh, yl) = u16_bytes(y);
    let (wrh, wrl) = u16_bytes(wr);
    let (hh, hl) = u16_bytes(h);
    assert(((le >> 16u32) & 0xFFu32) == (le / 65536) % 256 && ((le >> 8u32) & 0xFFu32) == (le
        / 256) % 256 && (le & 0xFFu32) == le % 256) by (bit_vector);
    // le is 3 bytes for large images
    let le_b0 = ((le >> 16) & 0xFF) as u8;
    let le_b1 = ((le >> 8) & 0xFF) as u8;
    let le_b2 = (le & 0xFF) as u8;
    let (wh, wl) = u16_bytes(w);

    vec![
        HEADER, 0xAA, 0x16, 0x04, 0x02, 0x01, 0x50,
        xh, xl, yh, yl,
        wrh, wrl, hh, hl,
        0x00, le_b0,
        le_b1, le_b2,
        wh, wl,
        FOOTER,
    ]
}


// ── response parsing ──────────────────────────────────────────────────────────

/// A reply of the device.
#[derive(Debug, Clone, PartialEq, Eq)]
pub enum DeviceMessage {
    Online,
    ConnectionOk,
    UploadInfo(UploadEvent),
    /// Temperature in °C. The raw packet is FF AA 0B 0B 02 <temp> FF FF FF 00 55
    /// data[5] holds the temperature byte.
    Status { temperature: u8 },
    CarvingProgress { percent: u8, x: u16, y: u16 },
    AfterUpload { x: u16, y: u16, w: u16, h: u16 },
    Unknown(Vec<u8>),
}

/// A step of an image upload, as the device reports it.
#[derive(Debug, Clone, Copy, PartialEq, Eq, Structural)]
pub enum UploadEvent {
    ImageInfoReceived,
    WaitingForImage,
    UploadPercent(u8),
    UploadFinished,
}

/// The mathematical value of a [`DeviceMessage`]: the same variants, with the
/// bytes of an unrecognised packet as a sequence.
pub enum MessageView {
    Online,
    ConnectionOk,
    UploadInfo(UploadEvent),
    Status { temperature: u8 },
    CarvingProgress { percent: u8, x: u16, y: u16 },
    AfterUpload { x: u16, y: u16, w: u16, h: u16 },
    Unknown(Seq<u8>),
}

impl View for DeviceMessage {
    type V = MessageView;

    open spec fn view(&self) -> MessageView {
        match self {
            DeviceMessage::Online => MessageView::Online,
            DeviceMessage::ConnectionOk => MessageView::ConnectionOk,
            DeviceMessage::UploadInfo(ev) => MessageView::UploadInfo(*ev),
            DeviceMessage::Status { temperature } => MessageView::Status {
                temperature: *temperature,
            },
            DeviceMessage::CarvingProgress { percent, x, y } => MessageView::CarvingProgress {
                percent: *percent,
                x: *x,
                y: *y,
            },
            DeviceMessage::AfterUpload { x, y, w, h } => MessageView::AfterUpload {
                x: *x,
                y: *y,
                w: *w,
                h: *h,
            },
            DeviceMessage::Unknown(raw) => MessageView::Unknown(raw@),
        }
    }
}

/// The value of an optional message.
pub open spec fn option_message_view(m: Option<DeviceMessage>) -> Option<MessageView> {
    match m {
        Some(msg) => Some(msg@),
        None => None,
    }
}

/// The big-endian 16-bit number with bytes `hi`, `lo`.
pub open spec fn be16(hi: u8, lo: u8) -> u16 {
    (hi * 256 + lo) as u16
}

/// Joins two big-endian bytes.
fn u16_from_bytes(hi: u8, lo: u8) -> (v: u16)
    ensures
        v == be16(hi, lo),
        v == hi * 256 + lo,
{
    assert(((hi as u16) << 8u16 | (lo as u16)) == hi * 256 + lo) by (bit_vector);
    (hi as u16) << 8 | lo as u16
}

/// What the device meant by the packet `d` (the bytes received before a
/// FOOTER, the leading 0xFF included), or `None` for a packet too short or
/// not starting with `FF AA` (old-style `FF <cmd>` packets aside).
pub open spec fn spec_parse_packet(d: Seq<u8>) -> Option<MessageView> {
    if d.len() < 2 {
        None
    } else if d[0] == HEADER && d[1] != 0xAA {
        if d[1] == 0x00 {
            Some(MessageView::Online)
        } else if d[1] == 0x02 {
            Some(MessageView::ConnectionOk)
        } else {
            Some(MessageView::Unknown(d))
        }
    } else if d.len() < 3 {
        None
    } else if d[0] != HEADER || d[1] != 0xAA {
        None
    } else if d[2] == 0x08 && d.len() >= 7 && d[3] == 0x04 && d[4] == 0x01 {
        if d[5] == 0x02 {
            Some(MessageView::UploadInfo(UploadEvent::ImageInfoReceived))
        } else if d[5] == 0x03 && d[6] == 0 {
            Some(MessageView::UploadInfo(UploadEvent::WaitingForImage))
        } else if d[5] == 0x03 {
            Some(MessageView::UploadInfo(UploadEvent::UploadPercent(d[6])))
        } else if d[5] == 0x04 {
            Some(MessageView::UploadInfo(UploadEvent::UploadFinished))
        } else {
            Some(MessageView::Unknown(d))
        }
    } else if d[2] == 0x0B && d.len() >= 6 {
        Some(MessageView::Status { temperature: d[5] })
    } else if d[2] == 0x0E && d.len() >= 11 {
        Some(
            MessageView::CarvingProgress {
                percent: d[6],
                x: be16(d[7], d[8]),
                y: be16(d[9], d[10]),
            },
        )
    } else if d[2] == 0x10 && d.len() >= 15 {
        Some(
            MessageView::AfterUpload {
                x: be16(d[7], d[8]),
                y: be16(d[9], d[10]),
                w: be16(d[11], d[12]),
                h: be16(d[13], d[14]),
            },
        )
    } else {
        Some(MessageView::Unknown(d))
    }
}

/// Parse a packet that was accumulated between two FOOTER (0x55) bytes.
/// `data` is the raw bytes NOT including the terminating 0x55.
/// The leading 0xFF IS included.
pub fn parse_packet(data: &[u8]) -> (r: Option<DeviceMessage>)
    ensures
        option_message_view(r) == spec_parse_packet(data@),
{
    if data.len() < 2 {
        return None;
    }
    // Old-style short packets: FF <cmd> ...  (no 0xAA)

    if data[0] == HEADER && data.len() >= 2 && data[1] != 0xAA {
        return match data[1] {
            0x00 => Some(DeviceMessage::Online),
            0x02 => Some(DeviceMessage::ConnectionOk),
            _ => Some(DeviceMessage::Unknown(vstd::slice::slice_to_vec(data))),
        };
    }
    if data.len() < 3 {
        return None;
    }
    if data[0] != HEADER || data[1] != 0xAA {
        return None;
    }
    let cmd = data[2];
    let len = data.len();

    if cmd == 0x08 && len >= 7 && data[3] == 0x04 && data[4] == 0x01 {
        // ── upload events:  FF AA 08 04 01 <ev> [pct] ... 55
        let ev = data[5];
        let pct = data[6];
        if ev == 0x02 {
            Some(DeviceMessage::UploadInfo(UploadEvent::ImageInfoReceived))
        } else if ev == 0x03 && pct == 0 {
            Some(DeviceMessage::UploadInfo(UploadEvent::WaitingForImage))
        } else if ev == 0x03 {
            Some(DeviceMessage::UploadInfo(UploadEvent::UploadPercent(pct)))
        } else if ev == 0x04 {
            Some(DeviceMessage::UploadInfo(UploadEvent::UploadFinished))
        } else {
            Some(DeviceMessage::Unknown(vstd::slice::slice_to_vec(data)))
        }
    } else if cmd == 0x0B && len >= 6 {
        // ── temperature / status:  FF AA 0B 0B 02 <temp> FF FF FF 00
        //    The packet [FF AA 0B 0B 02 1E FF FF FF 00] means 0x1E = 30 °C.
        //    The 0xFF bytes inside the payload are not footers: the serial
        //    reader accumulates until 0x55.
        Some(DeviceMessage::Status { temperature: data[5] })
    } else if cmd == 0x0E && len >= 11 {
        // ── carving progress:  FF AA 0E ... pct xH xL yH yL ...
        Some(
            DeviceMessage::CarvingProgress {
                percent: data[6],
                x: u16_from_bytes(data[7], data[8]),
                y: u16_from_bytes(data[9], data[10]),
            },
        )
    } else if cmd == 0x10 && len >= 15 {
        // ── after-upload confirmation
        Some(
            DeviceMessage::AfterUpload {
                x: u16_from_bytes(data[7], data[8]),
                y: u16_from_bytes(data[9], data[10]),
                w: u16_from_bytes(data[11], data[12]),
                h: u16_from_bytes(data[13], data[14]),
            },
        )
    } else {
        Some(DeviceMessage::Unknown(vstd::slice::slice_to_vec(data)))
    }
}


// ── laws ──────────────────────────────────────────────────────────────────────

/// Every packet that the host sends starts with 0xFF, and all but the ping
/// end with 0x55.
pub proof fn lemma_packets_are_framed(x: u16, y: u16, w: u16, h: u16, power: u8, idle: u8)
    ensures
        spec_init_ping()[0] == HEADER,
        spec_init_hello()[0] == HEADER && spec_init_hello().last() == FOOTER,
        spec_move_xy(x, y)[0] == HEADER && spec_move_xy(x, y).last() == FOOTER,
        spec_show_window(x, y, w, h)[0] == HEADER && spec_show_window(x, y, w, h).last() == FOOTER,
        spec_stop_window()[0] == HEADER && spec_stop_window().last() == FOOTER,
        spec_set_power(power, idle)[0] == HEADER && spec_set_power(power, idle).last() == FOOTER,
        spec_stop_carving()[0] == HEADER && spec_stop_carving().last() == FOOTER,
        spec_pause_carving()[0] == HEADER && spec_pause_carving().last() == FOOTER,
        spec_image_info(x, y, w, h)[0] == HEADER && spec_image_info(x, y, w, h).last() == FOOTER,
{
}

/// Splitting a number into its big-endian bytes and joining them gives the
/// number back.
pub proof fn lemma_be16_roundtrip(v: u16)
    ensures
        be16(high_byte(v), low_byte(v)) == v,
{
}

/// The device's area confirmation (command 0x10) lays out x, y, w and h as
/// the preview packet does: parsing a preview packet, its end marker left
/// off, reads back the rectangle that it was built from.
pub proof fn lemma_area_fields_roundtrip(x: u16, y: u16, w: u16, h: u16)
    ensures
        spec_parse_packet(spec_show_window(x, y, w, h).drop_last()) == Some(
            MessageView::AfterUpload { x, y, w, h },
        ),
{
    let d = spec_show_window(x, y, w, h).drop_last();
    assert(d.len() == 15);
    assert(d[0] == HEADER && d[1] == 0xAA && d[2] == 0x10);
    lemma_be16_roundtrip(x);
    lemma_be16_roundtrip(y);
    lemma_be16_roundtrip(w);
    lemma_be16_roundtrip(h);
}

/// The image header announces the raster length in three big-endian bytes
/// (bytes 16 to 18): whenever that length is below 2^24, they carry it
/// exactly.
pub proof fn lemma_image_info_length(x: u16, y: u16, w: u16, h: u16)
    requires
        w <= 65528,
        raster_len(w as int, h as int) < 0x100_0000,
    ensures
        ({
            let p = spec_image_info(x, y, w, h);
            p[16] * 65536 + p[17] * 256 + p[18] == raster_len(w as int, h as int)
        }),
{
    let le = raster_len(w as int, h as int);
    assert(le >= 0) by (nonlinear_arith)
        requires
            le == round_up8(w as int) * h / 8,
            w >= 0,
            h >= 0,
    ;
}

/// The motion packet carries x at bytes 7–8 and y at bytes 9–10, most
/// significant byte first.
pub proof fn lemma_move_xy_fields(x: u16, y: u16)
    ensures
        ({
            let p = spec_move_xy(x, y);
            &&& p.len() == 16
            &&& p[0] == 0xFF && p[1] == 0xAA && p[2] == 0x10 && p[6] == 0x01
            &&& p[7] * 256 + p[8] == x
            &&& p[9] * 256 + p[10] == y
            &&& p[11] == 0 && p[12] == 0 && p[13] == 0 && p[14] == 0
            &&& p[15] == 0x55
        }),
{
}

/// The preview packet carries x, y, w and h at bytes 7–14, each most
/// significant byte first.
pub proof fn lemma_show_window_fields(x: u16, y: u16, w: u16, h: u16)
    ensures
        ({
            let p = spec_show_window(x, y, w, h);
            &&& p.len() == 16
            &&& p[0] == 0xFF && p[1] == 0xAA && p[2] == 0x10 && p[6] == 0x02
            &&& p[7] * 256 + p[8] == x
            &&& p[9] * 256 + p[10] == y
            &&& p[11] * 256 + p[12] == w
            &&& p[13] * 256 + p[14] == h
            &&& p[15] == 0x55
        }),
{
}

/// The power packet carries the burning power and the idle power verbatim
/// at bytes 6 and 7.
pub proof fn lemma_set_power_fields(power: u8, idle: u8)
    ensures
        ({
            let p = spec_set_power(power, idle);
            &&& p.len() == 11
            &&& p[0] == 0xFF && p[1] == 0xAA && p[2] == 0x0B && p[5] == 0x0F
            &&& p[6] == power
            &&& p[7] == idle
            &&& p[8] == 0 && p[9] == 0
            &&& p[10] == 0x55
        }),
{
}

/// The image header carries the position, the width rounded up to the next
/// multiple of 8, the height, the raster length and the true width, each
/// number most significant byte first.
pub proof fn lemma_image_info_fields(x: u16, y: u16, w: u16, h: u16)
    requires
        w <= 65528,
    ensures
        ({
            let p = spec_image_info(x, y, w, h);
            let wr = p[11] * 256 + p[12];
            &&& p.len() == 22
            &&& p[0] == 0xFF && p[1] == 0xAA && p[2] == 0x16 && p[6] == 0x50
            &&& p[7] * 256 + p[8] == x
            &&& p[9] * 256 + p[10] == y
            &&& wr % 8 == 0 && w <= wr < w + 8
            &&& p[13] * 256 + p[14] == h
            &&& p[15] == 0
            &&& (wr * h / 8 < 0x100_0000 ==> p[16] * 65536 + p[17] * 256 + p[18] == wr * h / 8)
            &&& p[19] * 256 + p[20] == w
            &&& p[21] == 0x55
        }),
{
    let wr = round_up8(w as int);
    assert(wr <= 65528);
    assert((wr as u16) as int == wr);
    if raster_len(w as int, h as int) < 0x100_0000 {
        lemma_image_info_length(x, y, w, h);
    }
}

/// Old-style packets `FF <cmd>`: 00 means online, 02 connection ok, any
/// other command is kept as an unknown packet.
pub proof fn lemma_parse_short_packets(d: Seq<u8>)
    requires
        d.len() >= 2,
        d[0] == 0xFF,
        d[1] != 0xAA,
    ensures
        d[1] == 0x00 ==> spec_parse_packet(d) == Some(MessageView::Online),
        d[1] == 0x02 ==> spec_parse_packet(d) == Some(MessageView::ConnectionOk),
        d[1] != 0x00 && d[1] != 0x02 ==> spec_parse_packet(d) == Some(MessageView::Unknown(d)),
{
}

/// A status packet `FF AA 0B ..` of six bytes or more reports the
/// temperature held in byte 5.
pub proof fn lemma_parse_status(d: Seq<u8>)
    requires
        d.len() >= 6,
        d[0] == 0xFF,
        d[1] == 0xAA,
        d[2] == 0x0B,
    ensures
        spec_parse_packet(d) == Some(MessageView::Status { temperature: d[5] }),
{
}

/// A progress packet `FF AA 0E ..` of eleven bytes or more reports the
/// percentage in byte 6, x in bytes 7–8 and y in bytes 9–10, each most
/// significant byte first.
pub proof fn lemma_parse_progress(d: Seq<u8>)
    requires
        d.len() >= 11,
        d[0] == 0xFF,
        d[1] == 0xAA,
        d[2] == 0x0E,
    ensures
        spec_parse_packet(d) matches Some(MessageView::CarvingProgress { percent, x, y }) && percent
            == d[6] && x == d[7] * 256 + d[8] && y == d[9] * 256 + d[10],
{
    let x = be16(d[7], d[8]);
    let y = be16(d[9], d[10]);
    assert(x == d[7] * 256 + d[8]);
    assert(y == d[9] * 256 + d[10]);
}

/// An area confirmation `FF AA 10 ..` of fifteen bytes or more reports x, y,
/// w and h in bytes 7–14, each most significant byte first.
pub proof fn lemma_parse_area(d: Seq<u8>)
    requires
        d.len() >= 15,
        d[0] == 0xFF,
        d[1] == 0xAA,
        d[2] == 0x10,
    ensures
        spec_parse_packet(d) matches Some(MessageView::AfterUpload { x, y, w, h }) && x == d[7]
            * 256 + d[8] && y == d[9] * 256 + d[10] && w == d[11] * 256 + d[12] && h == d[13]
            * 256 + d[14],
{
}

/// An upload event `FF AA 08 04 01 <ev> <pct> ..`: event 02 means the header
/// arrived, 03 with 0 that the device waits for the image, 03 with any
/// other byte the upload percentage, 04 the end of the upload.
pub proof fn lemma_parse_upload(d: Seq<u8>)
    requires
        d.len() >= 7,
        d[0] == 0xFF,
        d[1] == 0xAA,
        d[2] == 0x08,
        d[3] == 0x04,
        d[4] == 0x01,
    ensures
        d[5] == 0x02 ==> spec_parse_packet(d) == Some(
            MessageView::UploadInfo(UploadEvent::ImageInfoReceived),
        ),
        d[5] == 0x03 && d[6] == 0 ==> spec_parse_packet(d) == Some(
            MessageView::UploadInfo(UploadEvent::WaitingForImage),
        ),
        d[5] == 0x03 && d[6] != 0 ==> spec_parse_packet(d) == Some(
            MessageView::UploadInfo(UploadEvent::UploadPercent(d[6])),
        ),
        d[5] == 0x04 ==> spec_parse_packet(d) == Some(
            MessageView::UploadInfo(UploadEvent::UploadFinished),
        ),
{
}

/// A packet that the device builds from big-endian numbers parses back to
/// those numbers: a progress report of `percent` at `(x, y)`.
pub proof fn lemma_progress_roundtrip(percent: u8, x: u16, y: u16, rest: Seq<u8>)
    ensures
        spec_parse_packet(
            seq![HEADER, 0xAA, 0x0E, 0, 0, 0, percent, high_byte(x), low_byte(x), high_byte(y), low_byte(y)]
                + rest,
        ) == Some(MessageView::CarvingProgress { percent, x, y }),
{
    let d = seq![HEADER, 0xAA, 0x0E, 0, 0, 0, percent, high_byte(x), low_byte(x), high_byte(y), low_byte(y)]
        + rest;
    assert(d[7] == high_byte(x) && d[8] == low_byte(x) && d[9] == high_byte(y) && d[10] == low_byte(y));
    lemma_parse_progress(d);
}

} // verus!
