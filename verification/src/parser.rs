//! The byte-stream tokenizer. `parse` recognizes one leading item of the
//! input: a raw text run, a C0 control, an escape-level DEC control, a CSI or
//! OSC sequence, or a SIXEL stream. A sequence cut short by the end of the
//! input yields `Incomplete`, so the caller can retry with more bytes; a
//! sequence that can never complete yields `Error`.

use vstd::prelude::*;
use crate::control::{C0, C1, Control, Csi, CsiV, Dec, Erase, ParseResult, ParseResultV, Sgr,
    SgrColor, SixelColor, SixelCommand, SixelHeader, C1V, ControlV};

verus! {

pub open spec fn is_c0(b: u8) -> bool {
    b < 0x20
}

pub open spec fn is_param_byte(b: u8) -> bool {
    0x30 <= b < 0x40
}

pub open spec fn is_inter_byte(b: u8) -> bool {
    0x20 <= b < 0x30
}

pub open spec fn is_final_byte(b: u8) -> bool {
    0x40 <= b < 0x7f
}

/// The C0 control a byte denotes.
pub open spec fn c0_of(b: u8) -> C0 {
    if b == 0x07 {
        C0::Bell
    } else if b == 0x08 {
        C0::Backspace
    } else if b == 0x09 {
        C0::HorizontalTab
    } else if b == 0x0a {
        C0::LineFeed
    } else if b == 0x0b {
        C0::VerticalTab
    } else if b == 0x0c {
        C0::FormFeed
    } else if b == 0x0d {
        C0::CarriageReturn
    } else if b == 0x0e {
        C0::ShiftOut
    } else if b == 0x0f {
        C0::ShiftIn
    } else if b == 0x18 {
        C0::Cancel
    } else if b == 0x1a {
        C0::Substitute
    } else {
        C0::Unknown(b)
    }
}

fn c0_exec(b: u8) -> (r: C0)
    ensures
        r == c0_of(b),
{
    if b == 0x07 {
        C0::Bell
    } else if b == 0x08 {
        C0::Backspace
    } else if b == 0x09 {
        C0::HorizontalTab
    } else if b == 0x0a {
        C0::LineFeed
    } else if b == 0x0b {
        C0::VerticalTab
    } else if b == 0x0c {
        C0::FormFeed
    } else if b == 0x0d {
        C0::CarriageReturn
    } else if b == 0x0e {
        C0::ShiftOut
    } else if b == 0x0f {
        C0::ShiftIn
    } else if b == 0x18 {
        C0::Cancel
    } else if b == 0x1a {
        C0::Substitute
    } else {
        C0::Unknown(b)
    }
}

/// Decimal accumulation of one digit, capped so it never overflows.
pub open spec fn push_digit_spec(acc: u32, d: u32) -> u32 {
    if acc <= 429496728 {
        (acc * 10 + d) as u32
    } else {
        u32::MAX
    }
}

fn push_digit(acc: u32, d: u32) -> (r: u32)
    requires
        d < 10,
    ensures
        r == push_digit_spec(acc, d),
{
    if acc <= 429496728 {
        acc * 10 + d
    } else {
        u32::MAX
    }
}

/// The first index at or after `i` that holds a C0 byte, or the length.
pub open spec fn text_end(s: Seq<u8>, i: int) -> int
    decreases s.len() - i,
{
    if i < 0 || i >= s.len() || is_c0(s[i]) {
        i
    } else {
        text_end(s, i + 1)
    }
}

fn text_end_exec(s: &[u8], i: usize) -> (r: usize)
    requires
        i <= s@.len(),
    ensures
        r == text_end(s@, i as int),
        i <= r <= s@.len(),
{
    let mut j = i;
    while j < s.len() && !(s[j] < 0x20)
        invariant
            i <= j <= s@.len(),
            text_end(s@, i as int) == text_end(s@, j as int),
        decreases s@.len() - j,
    {
        j = j + 1;
    }
    j
}

/// The first index at or after `i` that is not a parameter byte.
pub open spec fn param_end(s: Seq<u8>, i: int) -> int
    decreases s.len() - i,
{
    if i < 0 || i >= s.len() || !is_param_byte(s[i]) {
        i
    } else {
        param_end(s, i + 1)
    }
}

fn param_end_exec(s: &[u8], i: usize) -> (r: usize)
    requires
        i <= s@.len(),
    ensures
        r == param_end(s@, i as int),
        i <= r <= s@.len(),
{
    let mut j = i;
    while j < s.len() && 0x30 <= s[j] && s[j] < 0x40
        invariant
            i <= j <= s@.len(),
            param_end(s@, i as int) == param_end(s@, j as int),
        decreases s@.len() - j,
    {
        j = j + 1;
    }
    j
}

/// The first index at or after `i` that is not an intermediate byte.
pub open spec fn inter_end(s: Seq<u8>, i: int) -> int
    decreases s.len() - i,
{
    if i < 0 || i >= s.len() || !is_inter_byte(s[i]) {
        i
    } else {
        inter_end(s, i + 1)
    }
}

fn inter_end_exec(s: &[u8], i: usize) -> (r: usize)
    requires
        i <= s@.len(),
    ensures
        r == inter_end(s@, i as int),
        i <= r <= s@.len(),
{
    let mut j = i;
    while j < s.len() && 0x20 <= s[j] && s[j] < 0x30
        invariant
            i <= j <= s@.len(),
            inter_end(s@, i as int) == inter_end(s@, j as int),
        decreases s@.len() - j,
    {
        j = j + 1;
    }
    j
}

/// How many bytes a UTF-8 sequence starting with this byte needs.
pub open spec fn utf8_need(b: u8) -> int {
    if b < 0xc0 {
        1
    } else if b < 0xe0 {
        2
    } else if b < 0xf0 {
        3
    } else if b < 0xf8 {
        4
    } else {
        1
    }
}

pub open spec fn is_cont(b: u8) -> bool {
    0x80 <= b < 0xc0
}

pub open spec fn is_lead(b: u8) -> bool {
    0xc0 <= b < 0xf8
}

/// How many bytes at the end of a text run belong to a UTF-8 sequence that
/// has not finished yet and must wait for more input.
pub open spec fn trim_len(s: Seq<u8>) -> int {
    let n = s.len() as int;
    if n >= 1 && !is_cont(s[n - 1]) {
        if is_lead(s[n - 1]) && utf8_need(s[n - 1]) > 1 {
            1
        } else {
            0
        }
    } else if n >= 2 && !is_cont(s[n - 2]) {
        if is_lead(s[n - 2]) && utf8_need(s[n - 2]) > 2 {
            2
        } else {
            0
        }
    } else if n >= 3 && !is_cont(s[n - 3]) {
        if is_lead(s[n - 3]) && utf8_need(s[n - 3]) > 3 {
            3
        } else {
            0
        }
    } else {
        0
    }
}

fn lead_needs(b: u8, have: u32) -> (r: bool)
    ensures
        r == (is_lead(b) && utf8_need(b) > have),
{
    let need: u32 = if b < 0xc0 {
        1
    } else if b < 0xe0 {
        2
    } else if b < 0xf0 {
        3
    } else if b < 0xf8 {
        4
    } else {
        1
    };
    0xc0 <= b && b < 0xf8 && need > have
}

/// Computes `trim_len` of the run `s[0..e)`.
fn trim_exec(s: &[u8], e: usize) -> (r: usize)
    requires
        e <= s@.len(),
    ensures
        r == trim_len(s@.take(e as int)),
        r <= 3,
        r <= e,
{
    let ghost run = s@.take(e as int);
    if e >= 1 && !(0x80 <= s[e - 1] && s[e - 1] < 0xc0) {
        if lead_needs(s[e - 1], 1) {
            1
        } else {
            0
        }
    } else if e >= 2 && !(0x80 <= s[e - 2] && s[e - 2] < 0xc0) {
        if lead_needs(s[e - 2], 2) {
            2
        } else {
            0
        }
    } else if e >= 3 && !(0x80 <= s[e - 3] && s[e - 3] < 0xc0) {
        if lead_needs(s[e - 3], 3) {
            3
        } else {
            0
        }
    } else {
        0
    }
}

/// The numeric parameters encoded in `body`: digits accumulate, any other
/// parameter byte separates, and an empty slot reads as zero.
pub open spec fn params_rec(body: Seq<u8>, i: int, cur: u32, acc: Seq<u32>) -> Seq<u32>
    decreases body.len() - i,
{
    if i < 0 || i >= body.len() {
        acc.push(cur)
    } else if 0x30 <= body[i] <= 0x39 {
        params_rec(body, i + 1, push_digit_spec(cur, (body[i] - 0x30) as u32), acc)
    } else {
        params_rec(body, i + 1, 0u32, acc.push(cur))
    }
}

pub open spec fn params_of(body: Seq<u8>) -> Seq<u32> {
    params_rec(body, 0, 0u32, Seq::empty())
}

/// Reads the parameters in `s[lo..hi)`.
fn params_exec(s: &[u8], lo: usize, hi: usize) -> (r: Vec<u32>)
    requires
        lo <= hi <= s@.len(),
    ensures
        r@ == params_of(s@.subrange(lo as int, hi as int)),
        r@.len() >= 1,
{
    let ghost body = s@.subrange(lo as int, hi as int);
    let mut acc: Vec<u32> = Vec::new();
    let mut cur: u32 = 0;
    let mut i = lo;
    while i < hi
        invariant
            lo <= i <= hi <= s@.len(),
            body == s@.subrange(lo as int, hi as int),
            params_of(body) == params_rec(body, i - lo, cur, acc@),
        decreases hi - i,
    {
        let b = s[i];
        assert(body[i - lo] == b);
        if 0x30 <= b && b <= 0x39 {
            cur = push_digit(cur, (b - 0x30) as u32);
        } else {
            acc.push(cur);
            cur = 0;
        }
        i = i + 1;
    }
    let ghost accg = acc@;
    acc.push(cur);
    proof {
        assert(params_of(body) == params_rec(body, (hi - lo) as int, cur, accg));
        assert(params_rec(body, (hi - lo) as int, cur, accg) == accg.push(cur));
    }
    acc
}

pub open spec fn param_or(ps: Seq<u32>, i: int, d: u32) -> u32 {
    if 0 <= i < ps.len() {
        ps[i]
    } else {
        d
    }
}

pub open spec fn max1(v: u32) -> u32 {
    if v == 0 {
        1u32
    } else {
        v
    }
}

pub open spec fn clamp8(v: u32) -> u8 {
    if v > 255 {
        255u8
    } else {
        v as u8
    }
}

fn clamp8_exec(v: u32) -> (r: u8)
    ensures
        r == clamp8(v),
{
    if v > 255 {
        255
    } else {
        v as u8
    }
}

/// The SGR attributes denoted by a parameter list, decoded left to right.
pub open spec fn sgr_rec(ps: Seq<u32>, i: int, acc: Seq<Sgr>) -> Seq<Sgr>
    decreases ps.len() - i,
{
    if i < 0 || i >= ps.len() {
        acc
    } else {
        let p = ps[i];
        if p == 38 || p == 48 {
            if i + 2 < ps.len() && ps[i + 1] == 5 {
                let c = SgrColor::Index(clamp8(ps[i + 2]));
                sgr_rec(
                    ps,
                    i + 3,
                    acc.push(
                        if p == 38 {
                            Sgr::Foreground(c)
                        } else {
                            Sgr::Background(c)
                        },
                    ),
                )
            } else if i + 4 < ps.len() && ps[i + 1] == 2 {
                let c = SgrColor::Rgb(clamp8(ps[i + 2]), clamp8(ps[i + 3]), clamp8(ps[i + 4]));
                sgr_rec(
                    ps,
                    i + 5,
                    acc.push(
                        if p == 38 {
                            Sgr::Foreground(c)
                        } else {
                            Sgr::Background(c)
                        },
                    ),
                )
            } else if i + 1 < ps.len() && ps[i + 1] == 1 {
                sgr_rec(
                    ps,
                    i + 2,
                    acc.push(
                        if p == 38 {
                            Sgr::Foreground(SgrColor::Transparent)
                        } else {
                            Sgr::Background(SgrColor::Transparent)
                        },
                    ),
                )
            } else {
                sgr_rec(ps, i + 1, acc)
            }
        } else {
            let one = sgr_one(p);
            if one is Some {
                sgr_rec(ps, i + 1, acc.push(one->0))
            } else {
                sgr_rec(ps, i + 1, acc)
            }
        }
    }
}

/// The single-parameter SGR attributes.
pub open spec fn sgr_one(p: u32) -> Option<Sgr> {
    if p == 0 {
        Some(Sgr::Reset)
    } else if p == 1 {
        Some(Sgr::Bold)
    } else if p == 2 {
        Some(Sgr::Faint)
    } else if p == 22 {
        Some(Sgr::NormalWeight)
    } else if p == 3 {
        Some(Sgr::Italic(true))
    } else if p == 23 {
        Some(Sgr::Italic(false))
    } else if p == 4 {
        Some(Sgr::Underline(true))
    } else if p == 24 {
        Some(Sgr::Underline(false))
    } else if p == 5 {
        Some(Sgr::Blink(true))
    } else if p == 25 {
        Some(Sgr::Blink(false))
    } else if p == 7 {
        Some(Sgr::Reverse(true))
    } else if p == 27 {
        Some(Sgr::Reverse(false))
    } else if p == 8 {
        Some(Sgr::Invisible(true))
    } else if p == 28 {
        Some(Sgr::Invisible(false))
    } else if p == 9 {
        Some(Sgr::Struck(true))
    } else if p == 29 {
        Some(Sgr::Struck(false))
    } else if 30 <= p <= 37 {
        Some(Sgr::Foreground(SgrColor::Index((p - 30) as u8)))
    } else if p == 39 {
        Some(Sgr::Foreground(SgrColor::Default))
    } else if 40 <= p <= 47 {
        Some(Sgr::Background(SgrColor::Index((p - 40) as u8)))
    } else if p == 49 {
        Some(Sgr::Background(SgrColor::Default))
    } else if 90 <= p <= 97 {
        Some(Sgr::Foreground(SgrColor::Index((p - 90 + 8) as u8)))
    } else if 100 <= p <= 107 {
        Some(Sgr::Background(SgrColor::Index((p - 100 + 8) as u8)))
    } else {
        None
    }
}

fn sgr_one_exec(p: u32) -> (r: Option<Sgr>)
    ensures
        r == sgr_one(p),
{
    if p == 0 {
        Some(Sgr::Reset)
    } else if p == 1 {
        Some(Sgr::Bold)
    } else if p == 2 {
        Some(Sgr::Faint)
    } else if p == 22 {
        Some(Sgr::NormalWeight)
    } else if p == 3 {
        Some(Sgr::Italic(true))
    } else if p == 23 {
        Some(Sgr::Italic(false))
    } else if p == 4 {
        Some(Sgr::Underline(true))
    } else if p == 24 {
        Some(Sgr::Underline(false))
    } else if p == 5 {
        Some(Sgr::Blink(true))
    } else if p == 25 {
        Some(Sgr::Blink(false))
    } else if p == 7 {
        Some(Sgr::Reverse(true))
    } else if p == 27 {
        Some(Sgr::Reverse(false))
    } else if p == 8 {
        Some(Sgr::Invisible(true))
    } else if p == 28 {
        Some(Sgr::Invisible(false))
    } else if p == 9 {
        Some(Sgr::Struck(true))
    } else if p == 29 {
        Some(Sgr::Struck(false))
    } else if 30 <= p && p <= 37 {
        Some(Sgr::Foreground(SgrColor::Index((p - 30) as u8)))
    } else if p == 39 {
        Some(Sgr::Foreground(SgrColor::Default))
    } else if 40 <= p && p <= 47 {
        Some(Sgr::Background(SgrColor::Index((p - 40) as u8)))
    } else if p == 49 {
        Some(Sgr::Background(SgrColor::Default))
    } else if 90 <= p && p <= 97 {
        Some(Sgr::Foreground(SgrColor::Index((p - 90 + 8) as u8)))
    } else if 100 <= p && p <= 107 {
        Some(Sgr::Background(SgrColor::Index((p - 100 + 8) as u8)))
    } else {
        None
    }
}

fn sgr_exec(ps: &Vec<u32>) -> (r: Vec<Sgr>)
    ensures
        r@ == sgr_rec(ps@, 0, Seq::empty()),
{
    let mut acc: Vec<Sgr> = Vec::new();
    let mut i: usize = 0;
    while i < ps.len()
        invariant
            i <= ps@.len(),
            sgr_rec(ps@, 0, Seq::empty()) == sgr_rec(ps@, i as int, acc@),
        decreases ps@.len() - i,
    {
        let p = ps[i];
        if p == 38 || p == 48 {
            if ps.len() > 2 && i < ps.len() - 2 && ps[i + 1] == 5 {
                let c = SgrColor::Index(clamp8_exec(ps[i + 2]));
                acc.push(
                    if p == 38 {
                        Sgr::Foreground(c)
                    } else {
                        Sgr::Background(c)
                    },
                );
                i = i + 3;
            } else if ps.len() > 4 && i < ps.len() - 4 && ps[i + 1] == 2 {
                let c = SgrColor::Rgb(
                    clamp8_exec(ps[i + 2]),
                    clamp8_exec(ps[i + 3]),
                    clamp8_exec(ps[i + 4]),
                );
                acc.push(
                    if p == 38 {
                        Sgr::Foreground(c)
                    } else {
                        Sgr::Background(c)
                    },
                );
                i = i + 5;
            } else if ps.len() > 1 && i < ps.len() - 1 && ps[i + 1] == 1 {
                acc.push(
                    if p == 38 {
                        Sgr::Foreground(SgrColor::Transparent)
                    } else {
                        Sgr::Background(SgrColor::Transparent)
                    },
                );
                i = i + 2;
            } else {
                i = i + 1;
            }
        } else {
            match sgr_one_exec(p) {
                Some(a) => {
                    acc.push(a);
                },
                None => {},
            }
            i = i + 1;
        }
    }
    acc
}

/// What a complete CSI sequence denotes, from its private marker, first
/// intermediate byte, parameters and final byte.
pub open spec fn csi_decode(
    private: Option<u8>,
    inter: Option<u8>,
    ps: Seq<u32>,
    fin: u8,
) -> CsiV {
    if private is Some {
        if private->0 == 0x3f && (fin == 0x68 || fin == 0x6c) && inter is None {
            CsiV::Private(fin, ps)
        } else {
            CsiV::Unknown(fin, inter, ps)
        }
    } else if inter is Some {
        CsiV::Unknown(fin, inter, ps)
    } else if fin == 0x41 {
        CsiV::CursorUp(max1(param_or(ps, 0, 1)))
    } else if fin == 0x42 {
        CsiV::CursorDown(max1(param_or(ps, 0, 1)))
    } else if fin == 0x43 {
        CsiV::CursorForward(max1(param_or(ps, 0, 1)))
    } else if fin == 0x44 {
        CsiV::CursorBack(max1(param_or(ps, 0, 1)))
    } else if fin == 0x48 || fin == 0x66 {
        CsiV::CursorPosition {
            x: (max1(param_or(ps, 1, 1)) - 1) as u32,
            y: (max1(param_or(ps, 0, 1)) - 1) as u32,
        }
    } else if fin == 0x64 {
        CsiV::LinePosition((max1(param_or(ps, 0, 1)) - 1) as u32)
    } else if fin == 0x4a {
        let p = param_or(ps, 0, 0);
        if p == 0 {
            CsiV::EraseDisplay(Erase::ToEnd)
        } else if p == 1 {
            CsiV::EraseDisplay(Erase::ToStart)
        } else if p == 2 {
            CsiV::EraseDisplay(Erase::All)
        } else {
            CsiV::Unknown(fin, inter, ps)
        }
    } else if fin == 0x4b {
        let p = param_or(ps, 0, 0);
        if p == 0 {
            CsiV::EraseLine(Erase::ToEnd)
        } else if p == 1 {
            CsiV::EraseLine(Erase::ToStart)
        } else if p == 2 {
            CsiV::EraseLine(Erase::All)
        } else {
            CsiV::Unknown(fin, inter, ps)
        }
    } else if fin == 0x4c {
        CsiV::InsertLine(max1(param_or(ps, 0, 1)))
    } else if fin == 0x4d {
        CsiV::DeleteLine(max1(param_or(ps, 0, 1)))
    } else if fin == 0x63 {
        CsiV::DeviceAttributes(param_or(ps, 0, 0))
    } else if fin == 0x68 {
        CsiV::SetMode(ps)
    } else if fin == 0x6c {
        CsiV::ResetMode(ps)
    } else if fin == 0x73 {
        CsiV::SaveCursor
    } else if fin == 0x75 {
        CsiV::RestoreCursor
    } else if fin == 0x6d {
        CsiV::SelectGraphicalRendition(sgr_rec(ps, 0, Seq::empty()))
    } else {
        CsiV::Unknown(fin, inter, ps)
    }
}

fn param_or_exec(ps: &Vec<u32>, i: usize, d: u32) -> (r: u32)
    ensures
        r == param_or(ps@, i as int, d),
{
    if i < ps.len() {
        ps[i]
    } else {
        d
    }
}

fn max1_exec(v: u32) -> (r: u32)
    ensures
        r == max1(v),
{
    if v == 0 {
        1
    } else {
        v
    }
}

fn csi_decode_exec(private: Option<u8>, inter: Option<u8>, ps: Vec<u32>, fin: u8) -> (r: Csi)
    ensures
        r@ == csi_decode(private, inter, ps@, fin),
{
    match private {
        Some(m) => {
            if m == 0x3f && (fin == 0x68 || fin == 0x6c) && inter.is_none() {
                return Csi::Private(fin, ps);
            } else {
                return Csi::Unknown(fin, inter, ps);
            }
        },
        None => {},
    }
    if inter.is_some() {
        Csi::Unknown(fin, inter, ps)
    } else if fin == 0x41 {
        Csi::CursorUp(max1_exec(param_or_exec(&ps, 0, 1)))
    } else if fin == 0x42 {
        Csi::CursorDown(max1_exec(param_or_exec(&ps, 0, 1)))
    } else if fin == 0x43 {
        Csi::CursorForward(max1_exec(param_or_exec(&ps, 0, 1)))
    } else if fin == 0x44 {
        Csi::CursorBack(max1_exec(param_or_exec(&ps, 0, 1)))
    } else if fin == 0x48 || fin == 0x66 {
        Csi::CursorPosition {
            x: max1_exec(param_or_exec(&ps, 1, 1)) - 1,
            y: max1_exec(param_or_exec(&ps, 0, 1)) - 1,
        }
    } else if fin == 0x64 {
        Csi::LinePosition(max1_exec(param_or_exec(&ps, 0, 1)) - 1)
    } else if fin == 0x4a {
        let p = param_or_exec(&ps, 0, 0);
        if p == 0 {
            Csi::EraseDisplay(Erase::ToEnd)
        } else if p == 1 {
            Csi::EraseDisplay(Erase::ToStart)
        } else if p == 2 {
            Csi::EraseDisplay(Erase::All)
        } else {
            Csi::Unknown(fin, inter, ps)
        }
    } else if fin == 0x4b {
        let p = param_or_exec(&ps, 0, 0);
        if p == 0 {
            Csi::EraseLine(Erase::ToEnd)
        } else if p == 1 {
            Csi::EraseLine(Erase::ToStart)
        } else if p == 2 {
            Csi::EraseLine(Erase::All)
        } else {
            Csi::Unknown(fin, inter, ps)
        }
    } else if fin == 0x4c {
        Csi::InsertLine(max1_exec(param_or_exec(&ps, 0, 1)))
    } else if fin == 0x4d {
        Csi::DeleteLine(max1_exec(param_or_exec(&ps, 0, 1)))
    } else if fin == 0x63 {
        Csi::DeviceAttributes(param_or_exec(&ps, 0, 0))
    } else if fin == 0x68 {
        Csi::SetMode(ps)
    } else if fin == 0x6c {
        Csi::ResetMode(ps)
    } else if fin == 0x73 {
        Csi::SaveCursor
    } else if fin == 0x75 {
        Csi::RestoreCursor
    } else if fin == 0x6d {
        let sgr = sgr_exec(&ps);
        Csi::SelectGraphicalRendition(sgr)
    } else {
        Csi::Unknown(fin, inter, ps)
    }
}

/// What a CSI sequence (starting at `ESC [`) denotes.
pub open spec fn spec_parse_csi(s: Seq<u8>) -> ParseResultV {
    let has_priv = s.len() > 2 && 0x3c <= s[2] <= 0x3f;
    let p0: int = if has_priv {
        3
    } else {
        2
    };
    let pe = param_end(s, p0);
    let ie = inter_end(s, pe);
    if ie >= s.len() {
        ParseResultV::Incomplete
    } else if is_final_byte(s[ie]) {
        ParseResultV::Done(
            ie + 1,
            ControlV::C1(
                C1V::ControlSequence(
                    csi_decode(
                        if has_priv {
                            Some(s[2])
                        } else {
                            None
                        },
                        if ie > pe {
                            Some(s[pe])
                        } else {
                            None
                        },
                        params_of(s.subrange(p0, pe)),
                        s[ie],
                    ),
                ),
            ),
        )
    } else {
        ParseResultV::Error
    }
}

/// What an OSC sequence (starting at `ESC ]`) denotes: the payload runs to a
/// BEL or an ST terminator.
pub open spec fn spec_parse_osc(s: Seq<u8>) -> ParseResultV {
    let e = text_end(s, 2);
    if e >= s.len() {
        ParseResultV::Incomplete
    } else if s[e] == 0x07 {
        ParseResultV::Done(e + 1, ControlV::C1(C1V::OperatingSystemCommand(s.subrange(2, e))))
    } else if s[e] == 0x1b {
        if e + 1 >= s.len() {
            ParseResultV::Incomplete
        } else if s[e + 1] == 0x5c {
            ParseResultV::Done(e + 2, ControlV::C1(C1V::OperatingSystemCommand(s.subrange(2, e))))
        } else {
            ParseResultV::Error
        }
    } else {
        ParseResultV::Error
    }
}

/// The pixel aspect ratio selected by the raster header parameter.
pub open spec fn aspect_of(p: u32) -> (u32, u32) {
    if p <= 1 {
        (2u32, 1u32)
    } else if p == 2 {
        (5u32, 1u32)
    } else if p <= 4 {
        (3u32, 1u32)
    } else if p <= 6 {
        (2u32, 1u32)
    } else {
        (1u32, 1u32)
    }
}

fn aspect_exec(p: u32) -> (r: (u32, u32))
    ensures
        r == aspect_of(p),
{
    if p <= 1 {
        (2, 1)
    } else if p == 2 {
        (5, 1)
    } else if p <= 4 {
        (3, 1)
    } else if p <= 6 {
        (2, 1)
    } else {
        (1, 1)
    }
}

/// The raster header denoted by the DCS parameters.
pub open spec fn header_of(ps: Seq<u32>) -> SixelHeader {
    SixelHeader {
        aspect_num: aspect_of(param_or(ps, 0, 0)).0,
        aspect_den: aspect_of(param_or(ps, 0, 0)).1,
        background: param_or(ps, 1, 0) != 1,
    }
}

/// The color command denoted by a `#` parameter list, if any.
pub open spec fn color_cmd(ps: Seq<u32>) -> Option<SixelCommand> {
    if ps.len() == 1 {
        Some(SixelCommand::Enable(ps[0]))
    } else if ps.len() >= 5 && ps[1] == 1 {
        Some(
            SixelCommand::Define(
                ps[0],
                SixelColor::Hsl(
                    if ps[2] > 360 {
                        360u16
                    } else {
                        ps[2] as u16
                    },
                    if ps[3] > 100 {
                        100u8
                    } else {
                        ps[3] as u8
                    },
                    if ps[4] > 100 {
                        100u8
                    } else {
                        ps[4] as u8
                    },
                ),
            ),
        )
    } else if ps.len() >= 5 && ps[1] == 2 {
        Some(
            SixelCommand::Define(
                ps[0],
                SixelColor::Rgb(clamp8(ps[2]), clamp8(ps[3]), clamp8(ps[4])),
            ),
        )
    } else if ps.len() >= 6 && ps[1] == 3 {
        Some(
            SixelCommand::Define(
                ps[0],
                SixelColor::Rgba(clamp8(ps[2]), clamp8(ps[3]), clamp8(ps[4]), clamp8(ps[5])),
            ),
        )
    } else {
        None
    }
}

fn color_cmd_exec(ps: &Vec<u32>) -> (r: Option<SixelCommand>)
    ensures
        r == color_cmd(ps@),
{
    if ps.len() == 1 {
        Some(SixelCommand::Enable(ps[0]))
    } else if ps.len() >= 5 && ps[1] == 1 {
        let h: u16 = if ps[2] > 360 {
            360
        } else {
            ps[2] as u16
        };
        let sa: u8 = if ps[3] > 100 {
            100
        } else {
            ps[3] as u8
        };
        let l: u8 = if ps[4] > 100 {
            100
        } else {
            ps[4] as u8
        };
        Some(SixelCommand::Define(ps[0], SixelColor::Hsl(h, sa, l)))
    } else if ps.len() >= 5 && ps[1] == 2 {
        Some(
            SixelCommand::Define(
                ps[0],
                SixelColor::Rgb(clamp8_exec(ps[1 + 1]), clamp8_exec(ps[3]), clamp8_exec(ps[4])),
            ),
        )
    } else if ps.len() >= 6 && ps[1] == 3 {
        Some(
            SixelCommand::Define(
                ps[0],
                SixelColor::Rgba(
                    clamp8_exec(ps[2]),
                    clamp8_exec(ps[3]),
                    clamp8_exec(ps[4]),
                    clamp8_exec(ps[5]),
                ),
            ),
        )
    } else {
        None
    }
}

/// The SIXEL command stream from position `i` to the ST terminator.
pub open spec fn sixel_rec(
    s: Seq<u8>,
    i: int,
    h: SixelHeader,
    acc: Seq<SixelCommand>,
) -> ParseResultV
    decreases s.len() - i,
{
    if i < 0 || i >= s.len() {
        ParseResultV::Incomplete
    } else {
        let b = s[i];
        if b == 0x1b {
            if i + 1 >= s.len() {
                ParseResultV::Incomplete
            } else if s[i + 1] == 0x5c {
                ParseResultV::Done(i + 2, ControlV::Sixel(h, acc))
            } else {
                ParseResultV::Error
            }
        } else if b == 0x22 {
            let pe0 = param_end(s, i + 1);
            let pe = if i + 1 <= pe0 <= s.len() {
                pe0
            } else {
                i + 1
            };
            let ps = params_of(s.subrange(i + 1, pe));
            sixel_rec(
                s,
                pe,
                h,
                acc.push(SixelCommand::Aspect(max1(param_or(ps, 0, 1)), max1(param_or(ps, 1, 1)))),
            )
        } else if b == 0x23 {
            let pe0 = param_end(s, i + 1);
            let pe = if i + 1 <= pe0 <= s.len() {
                pe0
            } else {
                i + 1
            };
            let ps = params_of(s.subrange(i + 1, pe));
            let cmd = color_cmd(ps);
            sixel_rec(
                s,
                pe,
                h,
                if cmd is Some {
                    acc.push(cmd->0)
                } else {
                    acc
                },
            )
        } else if b == 0x24 {
            sixel_rec(s, i + 1, h, acc.push(SixelCommand::Start))
        } else if b == 0x2d {
            sixel_rec(s, i + 1, h, acc.push(SixelCommand::Next))
        } else if 0x3f <= b <= 0x7e {
            sixel_rec(s, i + 1, h, acc.push(SixelCommand::Draw((b - 0x3f) as u8)))
        } else if is_c0(b) {
            ParseResultV::Error
        } else {
            sixel_rec(s, i + 1, h, acc)
        }
    }
}

/// What a DCS sequence (starting at `ESC P`) denotes: only the SIXEL final
/// byte `q` is recognized.
pub open spec fn spec_parse_dcs(s: Seq<u8>) -> ParseResultV {
    let pe = param_end(s, 2);
    if pe >= s.len() {
        ParseResultV::Incomplete
    } else if s[pe] != 0x71 {
        ParseResultV::Error
    } else {
        sixel_rec(s, pe + 1, header_of(params_of(s.subrange(2, pe))), Seq::empty())
    }
}

/// What an escape sequence denotes.
pub open spec fn spec_parse_esc(s: Seq<u8>) -> ParseResultV {
    if s.len() < 2 {
        ParseResultV::Incomplete
    } else {
        let b = s[1];
        if b == 0x5b {
            spec_parse_csi(s)
        } else if b == 0x5d {
            spec_parse_osc(s)
        } else if b == 0x50 {
            spec_parse_dcs(s)
        } else if b == 0x45 {
            ParseResultV::Done(2, ControlV::C1(C1V::NextLine))
        } else if b == 0x37 {
            ParseResultV::Done(2, ControlV::Dec(Dec::SaveCursor))
        } else if b == 0x38 {
            ParseResultV::Done(2, ControlV::Dec(Dec::RestoreCursor))
        } else if b == 0x3d {
            ParseResultV::Done(2, ControlV::Dec(Dec::ApplicationKeypad(true)))
        } else if b == 0x3e {
            ParseResultV::Done(2, ControlV::Dec(Dec::ApplicationKeypad(false)))
        } else if b == 0x23 {
            if s.len() < 3 {
                ParseResultV::Incomplete
            } else if s[2] == 0x38 {
                ParseResultV::Done(3, ControlV::Dec(Dec::Alignment))
            } else if s[2] == 0x36 {
                ParseResultV::Done(3, ControlV::Dec(Dec::BackIndex))
            } else if s[2] == 0x39 {
                ParseResultV::Done(3, ControlV::Dec(Dec::ForwardIndex))
            } else {
                ParseResultV::Done(3, ControlV::Dec(Dec::Unknown(s[2])))
            }
        } else {
            ParseResultV::Done(2, ControlV::Dec(Dec::Unknown(b)))
        }
    }
}

/// What the head of the input denotes: the next control item or text run.
pub open spec fn spec_parse(s: Seq<u8>) -> ParseResultV {
    if s.len() == 0 {
        ParseResultV::Incomplete
    } else if s[0] == 0x1b {
        spec_parse_esc(s)
    } else if is_c0(s[0]) {
        ParseResultV::Done(1, ControlV::C0(c0_of(s[0])))
    } else {
        let e = text_end(s, 0);
        if e == s.len() {
            let t = trim_len(s.take(e));
            if e - t <= 0 {
                ParseResultV::Incomplete
            } else {
                ParseResultV::Done(e - t, ControlV::Text(s.take(e - t)))
            }
        } else {
            ParseResultV::Done(e, ControlV::Text(s.take(e)))
        }
    }
}

/// A completed parse consumes at least one byte and no more than the input.
pub proof fn lemma_parse_bounds(s: Seq<u8>)
    ensures
        spec_parse(s) matches ParseResultV::Done(n, _) ==> 1 <= n <= s.len(),
{
    if s.len() > 0 {
        if s[0] == 0x1b {
            lemma_parse_esc_bounds(s);
        } else if is_c0(s[0]) {
        } else {
            lemma_text_end_bounds(s, 0);
            assert(text_end(s, 0) == text_end(s, 1));
            lemma_text_end_bounds(s, 1);
        }
    }
}

proof fn lemma_text_end_bounds(s: Seq<u8>, i: int)
    requires
        0 <= i <= s.len(),
    ensures
        i <= text_end(s, i) <= s.len(),
    decreases s.len() - i,
{
    if i < s.len() && !is_c0(s[i]) {
        lemma_text_end_bounds(s, i + 1);
    }
}

proof fn lemma_param_end_bounds(s: Seq<u8>, i: int)
    requires
        0 <= i <= s.len(),
    ensures
        i <= param_end(s, i) <= s.len(),
    decreases s.len() - i,
{
    if i < s.len() && is_param_byte(s[i]) {
        lemma_param_end_bounds(s, i + 1);
    }
}

proof fn lemma_inter_end_bounds(s: Seq<u8>, i: int)
    requires
        0 <= i <= s.len(),
    ensures
        i <= inter_end(s, i) <= s.len(),
    decreases s.len() - i,
{
    if i < s.len() && is_inter_byte(s[i]) {
        lemma_inter_end_bounds(s, i + 1);
    }
}

proof fn lemma_sixel_bounds(s: Seq<u8>, i: int, h: SixelHeader, acc: Seq<SixelCommand>)
    requires
        0 <= i,
    ensures
        sixel_rec(s, i, h, acc) matches ParseResultV::Done(n, _) ==> i < n <= s.len(),
    decreases s.len() - i,
{
    if i < s.len() {
        let b = s[i];
        if b == 0x1b {
        } else if b == 0x22 || b == 0x23 {
            let pe0 = param_end(s, i + 1);
            let pe = if i + 1 <= pe0 <= s.len() {
                pe0
            } else {
                i + 1
            };
            lemma_param_end_bounds(s, i + 1);
            let ps = params_of(s.subrange(i + 1, pe));
            if b == 0x22 {
                lemma_sixel_bounds(
                    s,
                    pe,
                    h,
                    acc.push(
                        SixelCommand::Aspect(max1(param_or(ps, 0, 1)), max1(param_or(ps, 1, 1))),
                    ),
                );
            } else {
                let cmd = color_cmd(ps);
                lemma_sixel_bounds(
                    s,
                    pe,
                    h,
                    if cmd is Some {
                        acc.push(cmd->0)
                    } else {
                        acc
                    },
                );
            }
        } else if b == 0x24 {
            lemma_sixel_bounds(s, i + 1, h, acc.push(SixelCommand::Start));
        } else if b == 0x2d {
            lemma_sixel_bounds(s, i + 1, h, acc.push(SixelCommand::Next));
        } else if 0x3f <= b <= 0x7e {
            lemma_sixel_bounds(s, i + 1, h, acc.push(SixelCommand::Draw((b - 0x3f) as u8)));
        } else if is_c0(b) {
        } else {
            lemma_sixel_bounds(s, i + 1, h, acc);
        }
    }
}

proof fn lemma_parse_esc_bounds(s: Seq<u8>)
    requires
        s.len() >= 1,
    ensures
        spec_parse_esc(s) matches ParseResultV::Done(n, _) ==> 1 <= n <= s.len(),
{
    if s.len() >= 2 {
        let b = s[1];
        if b == 0x5b {
            lemma_param_end_bounds(
                s,
                if s.len() > 2 && 0x3c <= s[2] <= 0x3f {
                    3
                } else {
                    2
                },
            );
            let pe = param_end(
                s,
                if s.len() > 2 && 0x3c <= s[2] <= 0x3f {
                    3
                } else {
                    2
                },
            );
            lemma_inter_end_bounds(s, pe);
        } else if b == 0x5d {
            lemma_text_end_bounds(s, 2);
        } else if b == 0x50 {
            lemma_param_end_bounds(s, 2);
            let pe = param_end(s, 2);
            if pe < s.len() && s[pe] == 0x71 {
                lemma_sixel_bounds(s, pe + 1, header_of(params_of(s.subrange(2, pe))), Seq::empty());
            }
        }
    }
}

/// Parses the leading item of `input`.
pub fn parse(input: &[u8]) -> (r: ParseResult)
    ensures
        r@ == spec_parse(input@),
{
    let n = input.len();
    if n == 0 {
        return ParseResult::Incomplete;
    }
    let b0 = input[0];
    if b0 == 0x1b {
        parse_esc(input)
    } else if b0 < 0x20 {
        ParseResult::Done(1, Control::C0(c0_exec(b0)))
    } else {
        let e = text_end_exec(input, 0);
        if e == n {
            let t = trim_exec(input, e);
            if e - t == 0 {
                ParseResult::Incomplete
            } else {
                let mut text: Vec<u8> = Vec::new();
                let mut i: usize = 0;
                while i < e - t
                    invariant
                        i <= e - t,
                        e - t <= input@.len(),
                        text@ == input@.take(i as int),
                    decreases e - t - i,
                {
                    text.push(input[i]);
                    assert(text@ =~= input@.take(i + 1));
                    i = i + 1;
                }
                ParseResult::Done(e - t, Control::Text(text))
            }
        } else {
            let mut text: Vec<u8> = Vec::new();
            let mut i: usize = 0;
            while i < e
                invariant
                    i <= e,
                    e <= input@.len(),
                    text@ == input@.take(i as int),
                decreases e - i,
            {
                text.push(input[i]);
                assert(text@ =~= input@.take(i + 1));
                i = i + 1;
            }
            ParseResult::Done(e, Control::Text(text))
        }
    }
}

fn parse_esc(input: &[u8]) -> (r: ParseResult)
    requires
        input@.len() >= 1,
        input@[0] == 0x1b,
    ensures
        r@ == spec_parse_esc(input@),
{
    let n = input.len();
    if n < 2 {
        return ParseResult::Incomplete;
    }
    let b = input[1];
    if b == 0x5b {
        parse_csi(input)
    } else if b == 0x5d {
        parse_osc(input)
    } else if b == 0x50 {
        parse_dcs(input)
    } else if b == 0x45 {
        ParseResult::Done(2, Control::C1(C1::NextLine))
    } else if b == 0x37 {
        ParseResult::Done(2, Control::Dec(Dec::SaveCursor))
    } else if b == 0x38 {
        ParseResult::Done(2, Control::Dec(Dec::RestoreCursor))
    } else if b == 0x3d {
        ParseResult::Done(2, Control::Dec(Dec::ApplicationKeypad(true)))
    } else if b == 0x3e {
        ParseResult::Done(2, Control::Dec(Dec::ApplicationKeypad(false)))
    } else if b == 0x23 {
        if n < 3 {
            ParseResult::Incomplete
        } else if input[2] == 0x38 {
            ParseResult::Done(3, Control::Dec(Dec::Alignment))
        } else if input[2] == 0x36 {
            ParseResult::Done(3, Control::Dec(Dec::BackIndex))
        } else if input[2] == 0x39 {
            ParseResult::Done(3, Control::Dec(Dec::ForwardIndex))
        } else {
            ParseResult::Done(3, Control::Dec(Dec::Unknown(input[2])))
        }
    } else {
        ParseResult::Done(2, Control::Dec(Dec::Unknown(b)))
    }
}

fn parse_csi(input: &[u8]) -> (r: ParseResult)
    requires
        input@.len() >= 2,
        input@[0] == 0x1b,
        input@[1] == 0x5b,
    ensures
        r@ == spec_parse_csi(input@),
{
    let n = input.len();
    let has_priv = n > 2 && 0x3c <= input[2] && input[2] <= 0x3f;
    let p0: usize = if has_priv {
        3
    } else {
        2
    };
    let pe = param_end_exec(input, p0);
    let ie = inter_end_exec(input, pe);
    if ie >= n {
        ParseResult::Incomplete
    } else if 0x40 <= input[ie] && input[ie] < 0x7f {
        let private = if has_priv {
            Some(input[2])
        } else {
            None
        };
        let inter = if ie > pe {
            Some(input[pe])
        } else {
            None
        };
        let ps = params_exec(input, p0, pe);
        let csi = csi_decode_exec(private, inter, ps, input[ie]);
        ParseResult::Done(ie + 1, Control::C1(C1::ControlSequence(csi)))
    } else {
        ParseResult::Error
    }
}

fn parse_osc(input: &[u8]) -> (r: ParseResult)
    requires
        input@.len() >= 2,
        input@[0] == 0x1b,
        input@[1] == 0x5d,
    ensures
        r@ == spec_parse_osc(input@),
{
    let n = input.len();
    let e = text_end_exec(input, 2);
    if e >= n {
        return ParseResult::Incomplete;
    }
    let term = input[e];
    let taken: usize = if term == 0x07 {
        e + 1
    } else if term == 0x1b {
        if e + 1 >= n {
            return ParseResult::Incomplete;
        }
        if input[e + 1] == 0x5c {
            e + 2
        } else {
            return ParseResult::Error;
        }
    } else {
        return ParseResult::Error;
    };
    let mut payload: Vec<u8> = Vec::new();
    let mut i: usize = 2;
    while i < e
        invariant
            2 <= i <= e,
            e <= input@.len(),
            payload@ == input@.subrange(2, i as int),
        decreases e - i,
    {
        payload.push(input[i]);
        assert(payload@ =~= input@.subrange(2, i + 1));
        i = i + 1;
    }
    ParseResult::Done(taken, Control::C1(C1::OperatingSystemCommand(payload)))
}

fn parse_dcs(input: &[u8]) -> (r: ParseResult)
    requires
        input@.len() >= 2,
        input@[0] == 0x1b,
        input@[1] == 0x50,
    ensures
        r@ == spec_parse_dcs(input@),
{
    let n = input.len();
    let pe = param_end_exec(input, 2);
    if pe >= n {
        return ParseResult::Incomplete;
    }
    if input[pe] != 0x71 {
        return ParseResult::Error;
    }
    let ps = params_exec(input, 2, pe);
    let aspect = aspect_exec(param_or_exec(&ps, 0, 0));
    let background = param_or_exec(&ps, 1, 0) != 1;
    let header = SixelHeader { aspect_num: aspect.0, aspect_den: aspect.1, background };
    assert(header == header_of(ps@));
    let mut acc: Vec<SixelCommand> = Vec::new();
    let mut i: usize = pe + 1;
    loop
        invariant
            pe + 1 <= i,
            i <= input@.len(),
            spec_parse_dcs(input@) == sixel_rec(input@, i as int, header, acc@),
        decreases input@.len() - i,
    {
        if i >= input.len() {
            return ParseResult::Incomplete;
        }
        let b = input[i];
        if b == 0x1b {
            if i + 1 >= input.len() {
                return ParseResult::Incomplete;
            }
            if input[i + 1] == 0x5c {
                return ParseResult::Done(i + 2, Control::Sixel(header, acc));
            }
            return ParseResult::Error;
        } else if b == 0x22 || b == 0x23 {
            let pe2 = param_end_exec(input, i + 1);
            let ps2 = params_exec(input, i + 1, pe2);
            if b == 0x22 {
                acc.push(
                    SixelCommand::Aspect(
                        max1_exec(param_or_exec(&ps2, 0, 1)),
                        max1_exec(param_or_exec(&ps2, 1, 1)),
                    ),
                );
            } else {
                match color_cmd_exec(&ps2) {
                    Some(cmd) => {
                        acc.push(cmd);
                    },
                    None => {},
                }
            }
            i = pe2;
        } else if b == 0x24 {
            acc.push(SixelCommand::Start);
            i = i + 1;
        } else if b == 0x2d {
            acc.push(SixelCommand::Next);
            i = i + 1;
        } else if 0x3f <= b && b <= 0x7e {
            acc.push(SixelCommand::Draw(b - 0x3f));
            i = i + 1;
        } else if b < 0x20 {
            return ParseResult::Error;
        } else {
            i = i + 1;
        }
    }
}

} // verus!
