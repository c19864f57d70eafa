//! The JSON wire and persistence encoding of the protocol's values.
//!
//! Every message and the persisted session are encoded as JSON text
//! in ASCII bytes: strings escape the quote, the backslash, and any
//! character outside printable ASCII (as `\u` escapes, with
//! surrogate pairs above the basic plane); numbers are plain
//! decimals; enums are encoded as their variant name, or as an
//! object with the variant name as the key when they carry data.
//!
//! The encoders are specified exactly by the `enc_*` functions; the
//! decoders accept exactly the canonical encodings: a decoder
//! re-encodes what it parsed and succeeds only on a byte-for-byte
//! match, so a successful decode proves the input was the encoding
//! of the returned value. In the other direction, success is owed
//! and proved, with the decoded value pinned, for every client
//! message except text-carrying renames and raw-input bytes (attach,
//! detach, resize, and every command of the dispatch table but the
//! rename), for the shutdown and pane-exit notices, and for the
//! blank session; decoding of the remaining canonical encodings
//! (those carrying text or byte lists) is exercised by tests.

use vstd::prelude::*;
use vstd::string::StringSliceAdditionalSpecFns;

use crate::command::MuxCommand;
use crate::fmt::push_char;
use crate::layout::{Direction, LayoutNode, PaneId};
use crate::pane::Pane;
use crate::session::Session;
use crate::window::MuxWindow;

verus! {

/// The bytes of an ASCII text.
pub open spec fn ascii_of(s: Seq<char>) -> Seq<u8> {
    Seq::new(s.len(), |i: int| s[i] as u8)
}

/// The bytes `tb` sit at position `pos` of `buf`.
pub open spec fn bytes_at(buf: Seq<u8>, pos: int, tb: Seq<u8>) -> bool {
    tb.len() > 0 && pos + tb.len() <= buf.len() && buf.subrange(pos, pos + tb.len()) == tb
}

/// An ASCII token's UTF-8 bytes are exactly its characters.
proof fn lemma_token_bytes(token: &str)
    requires
        vstd::string::is_ascii(token),
    ensures
        token.spec_bytes() == ascii_of(token@),
{
    vstd::string::is_ascii_spec_bytes(token);
    assert(token.spec_bytes() =~= ascii_of(token@));
}

/// The byte of one decimal digit.
pub open spec fn digit_byte(d: nat) -> u8 {
    (0x30 + d) as u8
}

/// The decimal bytes of `n`, without leading zeros.
pub open spec fn enc_nat(n: nat) -> Seq<u8>
    decreases n,
{
    if n < 10 {
        seq![digit_byte(n)]
    } else {
        enc_nat(n / 10) + seq![digit_byte(n % 10)]
    }
}

/// The numeric value of a run of decimal digit bytes, most
/// significant first.
pub open spec fn digits_val(s: Seq<u8>) -> nat
    decreases s.len(),
{
    if s.len() == 0 {
        0
    } else {
        digits_val(s.drop_last()) * 10 + (if 0x30 <= s.last() <= 0x39 {
            (s.last() - 0x30) as nat
        } else {
            0
        })
    }
}

/// The decimal encoding of `n` holds only digits, never starts with
/// a zero digit unless `n` is zero, and evaluates back to `n`.
proof fn lemma_enc_nat_shape(n: nat)
    ensures
        enc_nat(n).len() >= 1,
        forall|i: int| 0 <= i < enc_nat(n).len() ==> 0x30 <= #[trigger] enc_nat(n)[i] <= 0x39,
        enc_nat(n)[0] == 0x30 ==> n == 0,
        digits_val(enc_nat(n)) == n,
    decreases n,
{
    if n < 10 {
        assert(enc_nat(n) == seq![digit_byte(n)]);
        assert(enc_nat(n).drop_last() =~= Seq::<u8>::empty());
        assert(enc_nat(n).last() == digit_byte(n));
        assert(0x30 <= digit_byte(n) <= 0x39);
        assert(digits_val(Seq::<u8>::empty()) == 0);
        assert(digits_val(enc_nat(n)) == n);
    } else {
        lemma_enc_nat_shape(n / 10);
        let a = enc_nat(n / 10);
        assert(enc_nat(n) == a + seq![digit_byte(n % 10)]);
        assert(enc_nat(n).drop_last() =~= a);
        assert(enc_nat(n).last() == digit_byte(n % 10));
        assert(0x30 <= digit_byte(n % 10) <= 0x39);
        assert((digit_byte(n % 10) - 0x30) as nat == n % 10);
        assert(digits_val(enc_nat(n)) == (n / 10) * 10 + n % 10);
        assert((n / 10) * 10 + n % 10 == n) by (nonlinear_arith);
        assert(enc_nat(n)[0] == a[0]);
    }
}

/// A digit-run prefix never exceeds the whole run's value.
proof fn lemma_digits_val_prefix(s: Seq<u8>, k: int)
    requires
        0 <= k <= s.len(),
    ensures
        digits_val(s.take(k)) <= digits_val(s),
    decreases s.len() - k,
{
    if k == s.len() {
        assert(s.take(k) =~= s);
    } else {
        lemma_digits_val_prefix(s, k + 1);
        assert(s.take(k + 1).drop_last() =~= s.take(k));
        assert(digits_val(s.take(k + 1)) >= digits_val(s.take(k)) * 10);
        assert(digits_val(s.take(k)) <= digits_val(s.take(k + 1)));
    }
}

/// The decimal bytes of `v`, with a leading minus when negative.
pub open spec fn enc_int(v: int) -> Seq<u8> {
    if v < 0 {
        seq![0x2du8] + enc_nat((-v) as nat)
    } else {
        enc_nat(v as nat)
    }
}

/// The byte of one lowercase hex digit.
pub open spec fn hex_digit_byte(d: int) -> u8 {
    if d < 10 {
        (0x30 + d) as u8
    } else {
        (0x57 + d) as u8
    }
}

/// Four lowercase hex digits of a value below 0x10000.
pub open spec fn hex4(v: int) -> Seq<u8> {
    seq![
        hex_digit_byte((v / 0x1000) % 16),
        hex_digit_byte((v / 0x100) % 16),
        hex_digit_byte((v / 0x10) % 16),
        hex_digit_byte(v % 16),
    ]
}

/// The escape of one character inside a JSON string: quote and
/// backslash escaped, printable ASCII literal, everything else a
/// `\u` escape (a surrogate pair above the basic plane).
pub open spec fn esc_char(c: char) -> Seq<u8> {
    if c == '"' {
        seq![0x5cu8, 0x22u8]
    } else if c == '\\' {
        seq![0x5cu8, 0x5cu8]
    } else if ' ' <= c && c <= '~' {
        seq![c as u8]
    } else if (c as int) < 0x10000 {
        seq![0x5cu8, 0x75u8] + hex4(c as int)
    } else {
        let v = (c as int) - 0x10000;
        seq![0x5cu8, 0x75u8] + hex4(0xd800 + v / 0x400) + seq![0x5cu8, 0x75u8] + hex4(
            0xdc00 + v % 0x400,
        )
    }
}

/// The escaped bytes of a text.
pub open spec fn enc_chars(s: Seq<char>) -> Seq<u8>
    decreases s.len(),
{
    if s.len() == 0 {
        Seq::empty()
    } else {
        enc_chars(s.drop_last()) + esc_char(s.last())
    }
}

/// A JSON string: quoted escaped text.
pub open spec fn enc_string(s: Seq<char>) -> Seq<u8> {
    seq![0x22u8] + enc_chars(s) + seq![0x22u8]
}

/// The comma-separated decimals of a byte list.
pub open spec fn enc_byte_items(data: Seq<u8>) -> Seq<u8>
    decreases data.len(),
{
    if data.len() == 0 {
        Seq::empty()
    } else if data.len() == 1 {
        enc_nat(data.last() as nat)
    } else {
        enc_byte_items(data.drop_last()) + seq![0x2cu8] + enc_nat(data.last() as nat)
    }
}

/// A JSON array of byte values.
pub open spec fn enc_bytes(data: Seq<u8>) -> Seq<u8> {
    seq![0x5bu8] + enc_byte_items(data) + seq![0x5du8]
}

/// A pane or window id: an object holding its number.
pub open spec fn enc_id(n: nat) -> Seq<u8> {
    ascii_of("{\"0\":"@) + enc_nat(n) + ascii_of("}"@)
}

/// A split direction.
pub open spec fn enc_direction(d: Direction) -> Seq<u8> {
    match d {
        Direction::Horizontal => ascii_of("\"Horizontal\""@),
        Direction::Vertical => ascii_of("\"Vertical\""@),
    }
}

/// A boolean.
pub open spec fn enc_bool(b: bool) -> Seq<u8> {
    if b {
        ascii_of("true"@)
    } else {
        ascii_of("false"@)
    }
}

/// A multiplexer command.
pub open spec fn enc_cmd(c: MuxCommand) -> Seq<u8> {
    match c {
        MuxCommand::SplitHorizontal => ascii_of("\"SplitHorizontal\""@),
        MuxCommand::SplitVertical => ascii_of("\"SplitVertical\""@),
        MuxCommand::ClosePane => ascii_of("\"ClosePane\""@),
        MuxCommand::NextPane => ascii_of("\"NextPane\""@),
        MuxCommand::PrevPane => ascii_of("\"PrevPane\""@),
        MuxCommand::NavigatePane(d) => ascii_of("{\"NavigatePane\":"@) + enc_direction(d)
            + ascii_of("}"@),
        MuxCommand::NewWindow => ascii_of("\"NewWindow\""@),
        MuxCommand::CloseWindow => ascii_of("\"CloseWindow\""@),
        MuxCommand::NextWindow => ascii_of("\"NextWindow\""@),
        MuxCommand::PrevWindow => ascii_of("\"PrevWindow\""@),
        MuxCommand::SwitchToWindow(n) => ascii_of("{\"SwitchToWindow\":"@) + enc_nat(n as nat)
            + ascii_of("}"@),
        MuxCommand::RenameWindow(name) => ascii_of("{\"RenameWindow\":"@) + enc_string(name@)
            + ascii_of("}"@),
        MuxCommand::DetachSession => ascii_of("\"DetachSession\""@),
        MuxCommand::ToggleZoom => ascii_of("\"ToggleZoom\""@),
        MuxCommand::ResizePane(d, delta) => ascii_of("{\"ResizePane\":["@) + enc_direction(d)
            + ascii_of(","@) + enc_int(delta as int) + ascii_of("]}"@),
        MuxCommand::ScrollbackMode => ascii_of("\"ScrollbackMode\""@),
    }
}

/// A layout tree node.
pub open spec fn enc_node(t: LayoutNode) -> Seq<u8>
    decreases t,
{
    match t {
        LayoutNode::Leaf { pane_id } => ascii_of("{\"Leaf\":{\"pane_id\":"@) + enc_id(
            pane_id.0 as nat,
        ) + ascii_of("}}"@),
        LayoutNode::Split { direction, ratio, first, second } => ascii_of(
            "{\"Split\":{\"direction\":"@,
        ) + enc_direction(direction) + ascii_of(",\"ratio\":"@) + enc_nat(ratio as nat)
            + ascii_of(",\"first\":"@) + enc_node(*first) + ascii_of(",\"second\":"@) + enc_node(
            *second,
        ) + ascii_of("}}"@),
    }
}

/// A pane's metadata.
pub open spec fn enc_pane(p: Pane) -> Seq<u8> {
    ascii_of("{\"id\":"@) + enc_id(p.id.0 as nat) + ascii_of(",\"title\":"@) + enc_string(
        p.title@,
    ) + ascii_of("}"@)
}

/// The comma-separated encodings of a pane list.
pub open spec fn enc_pane_items(ps: Seq<Pane>) -> Seq<u8>
    decreases ps.len(),
{
    if ps.len() == 0 {
        Seq::empty()
    } else if ps.len() == 1 {
        enc_pane(ps.last())
    } else {
        enc_pane_items(ps.drop_last()) + seq![0x2cu8] + enc_pane(ps.last())
    }
}

/// A window.
pub open spec fn enc_window(w: MuxWindow) -> Seq<u8> {
    ascii_of("{\"id\":"@) + enc_id(w.id.0 as nat) + ascii_of(",\"name\":"@) + enc_string(w.name@)
        + ascii_of(",\"layout\":"@) + enc_node(w.layout) + ascii_of(",\"active_pane\":"@)
        + enc_id(w.active_pane.0 as nat) + ascii_of(",\"panes\":["@) + enc_pane_items(w.panes@)
        + ascii_of("],\"next_pane_id\":"@) + enc_nat(w.next_pane_id as nat) + ascii_of(
        ",\"zoomed\":"@,
    ) + enc_bool(w.zoomed) + ascii_of("}"@)
}

/// The comma-separated encodings of a window list.
pub open spec fn enc_window_items(ws: Seq<MuxWindow>) -> Seq<u8>
    decreases ws.len(),
{
    if ws.len() == 0 {
        Seq::empty()
    } else if ws.len() == 1 {
        enc_window(ws.last())
    } else {
        enc_window_items(ws.drop_last()) + seq![0x2cu8] + enc_window(ws.last())
    }
}

/// A session with nothing in it: zero ids and indices, an empty
/// name, and no windows. Its encoding is one fixed byte string, the
/// instance on which session decoding provably owes success.
pub open spec fn blank_session(s: Session) -> bool {
    &&& s.id == (crate::session::SessionId(0))
    &&& s.name@ == Seq::<char>::empty()
    &&& s.windows@.len() == 0
    &&& s.active_window == 0
    &&& s.next_window_id == 0
}

/// A session.
pub open spec fn enc_session(s: Session) -> Seq<u8> {
    ascii_of("{\"id\":"@) + enc_id(s.id.0 as nat) + ascii_of(",\"name\":"@) + enc_string(s.name@)
        + ascii_of(",\"windows\":["@) + enc_window_items(s.windows@) + ascii_of(
        "],\"active_window\":"@,
    ) + enc_nat(s.active_window as nat) + ascii_of(",\"next_window_id\":"@) + enc_nat(
        s.next_window_id as nat,
    ) + ascii_of("}"@)
}

/// A client message.
pub open spec fn enc_client(m: crate::protocol::ClientMessage) -> Seq<u8> {
    match m {
        crate::protocol::ClientMessage::Input(data) => ascii_of("{\"Input\":"@) + enc_bytes(
            data@,
        ) + ascii_of("}"@),
        crate::protocol::ClientMessage::Resize { rows, cols } => ascii_of(
            "{\"Resize\":{\"rows\":"@,
        ) + enc_nat(rows as nat) + ascii_of(",\"cols\":"@) + enc_nat(cols as nat) + ascii_of(
            "}}"@,
        ),
        crate::protocol::ClientMessage::Command(c) => ascii_of("{\"Command\":"@) + enc_cmd(c)
            + ascii_of("}"@),
        crate::protocol::ClientMessage::Attach => ascii_of("\"Attach\""@),
        crate::protocol::ClientMessage::Detach => ascii_of("\"Detach\""@),
    }
}

/// A server message.
pub open spec fn enc_server(m: crate::protocol::ServerMessage) -> Seq<u8> {
    match m {
        crate::protocol::ServerMessage::Output { pane_id, data } => ascii_of(
            "{\"Output\":{\"pane_id\":"@,
        ) + enc_id(pane_id.0 as nat) + ascii_of(",\"data\":"@) + enc_bytes(data@) + ascii_of(
            "}}"@,
        ),
        crate::protocol::ServerMessage::StateSync(s) => ascii_of("{\"StateSync\":"@)
            + enc_session(s) + ascii_of("}"@),
        crate::protocol::ServerMessage::PaneExited(pane_id) => ascii_of("{\"PaneExited\":"@)
            + enc_id(pane_id.0 as nat) + ascii_of("}"@),
        crate::protocol::ServerMessage::ServerShutdown => ascii_of("\"ServerShutdown\""@),
    }
}

/// The characters of an ASCII byte text.
pub open spec fn chars_of_ascii(bs: Seq<u8>) -> Seq<char> {
    Seq::new(bs.len(), |i: int| bs[i] as char)
}

/// Append the bytes of an ASCII text.
fn push_ascii(out: &mut Vec<u8>, s: &str)
    requires
        vstd::string::is_ascii(s),
    ensures
        final(out)@ == old(out)@ + ascii_of(s@),
{
    let ghost base = out@;
    let bs = s.as_bytes();
    proof {
        broadcast use vstd::string::is_ascii_spec_bytes;
        assert(bs@ =~= ascii_of(s@));
    }
    let mut i: usize = 0;
    while i < bs.len()
        invariant
            0 <= i <= bs@.len(),
            bs@ == ascii_of(s@),
            out@ == base + bs@.take(i as int),
        decreases bs@.len() - i,
    {
        out.push(bs[i]);
        proof {
            assert(out@ =~= base + bs@.take(i + 1));
        }
        i = i + 1;
    }
    proof {
        assert(out@ =~= base + ascii_of(s@));
    }
}

/// Append the decimal bytes of `n`.
fn push_u64(out: &mut Vec<u8>, n: u64)
    ensures
        final(out)@ == old(out)@ + enc_nat(n as nat),
    decreases n,
{
    if n < 10 {
        out.push(0x30u8 + n as u8);
    } else {
        push_u64(out, n / 10);
        out.push(0x30u8 + (n % 10) as u8);
        proof {
            assert(out@ =~= old(out)@ + enc_nat(n as nat));
        }
    }
}

/// Append the decimal bytes of `v` with its sign.
fn push_i64(out: &mut Vec<u8>, v: i64)
    requires
        v > i64::MIN,
    ensures
        final(out)@ == old(out)@ + enc_int(v as int),
{
    if v < 0 {
        out.push(0x2du8);
        push_u64(out, (-v) as u64);
        proof {
            assert(out@ =~= old(out)@ + enc_int(v as int));
        }
    } else {
        push_u64(out, v as u64);
    }
}

/// Append four lowercase hex digits of `v`.
fn push_hex4(out: &mut Vec<u8>, v: u32)
    requires
        v < 0x10000,
    ensures
        final(out)@ == old(out)@ + hex4(v as int),
{
    let d0: u32 = (v / 0x1000) % 16;
    let d1: u32 = (v / 0x100) % 16;
    let d2: u32 = (v / 0x10) % 16;
    let d3: u32 = v % 16;
    out.push(hex_digit(d0));
    out.push(hex_digit(d1));
    out.push(hex_digit(d2));
    out.push(hex_digit(d3));
    proof {
        assert(out@ =~= old(out)@ + hex4(v as int));
    }
}

fn hex_digit(d: u32) -> (r: u8)
    requires
        d < 16,
    ensures
        r == hex_digit_byte(d as int),
{
    if d < 10 {
        0x30u8 + d as u8
    } else {
        0x57u8 + d as u8
    }
}

/// Append the escape of one character of a JSON string.
fn push_esc_char(out: &mut Vec<u8>, c: char)
    ensures
        final(out)@ == old(out)@ + esc_char(c),
{
    let u: u32 = c as u32;
    if c == '"' {
        out.push(0x5cu8);
        out.push(0x22u8);
        proof {
            assert(out@ =~= old(out)@ + esc_char(c));
        }
    } else if c == '\\' {
        out.push(0x5cu8);
        out.push(0x5cu8);
        proof {
            assert(out@ =~= old(out)@ + esc_char(c));
        }
    } else if 0x20 <= u && u <= 0x7e {
        proof {
            assert(' ' <= c && c <= '~');
        }
        out.push(u as u8);
        proof {
            assert(out@ =~= old(out)@ + esc_char(c));
        }
    } else if u < 0x10000 {
        proof {
            assert(!(' ' <= c && c <= '~'));
        }
        out.push(0x5cu8);
        out.push(0x75u8);
        push_hex4(out, u);
        proof {
            assert(out@ =~= old(out)@ + esc_char(c));
        }
    } else {
        proof {
            assert(!(' ' <= c && c <= '~'));
        }
        let v: u32 = u - 0x10000;
        out.push(0x5cu8);
        out.push(0x75u8);
        push_hex4(out, 0xd800 + v / 0x400);
        out.push(0x5cu8);
        out.push(0x75u8);
        push_hex4(out, 0xdc00 + v % 0x400);
        proof {
            assert(v / 0x400 < 0x400);
            assert(out@ =~= old(out)@ + esc_char(c));
        }
    }
}

/// Append a JSON string.
fn push_string(out: &mut Vec<u8>, s: &str)
    ensures
        final(out)@ == old(out)@ + enc_string(s@),
{
    let ghost base = out@;
    out.push(0x22u8);
    let n = s.unicode_len();
    let mut i: usize = 0;
    while i < n
        invariant
            0 <= i <= n,
            n == s@.len(),
            out@ == base + seq![0x22u8] + enc_chars(s@.take(i as int)),
        decreases n - i,
    {
        let c = s.get_char(i);
        push_esc_char(out, c);
        proof {
            assert(s@.take(i + 1).drop_last() =~= s@.take(i as int));
            assert(s@.take(i + 1).last() == s@[i as int]);
            assert(out@ =~= base + seq![0x22u8] + enc_chars(s@.take(i + 1)));
        }
        i = i + 1;
    }
    out.push(0x22u8);
    proof {
        assert(s@.take(n as int) =~= s@);
        assert(out@ =~= base + enc_string(s@));
    }
}

/// Append a JSON array of byte values.
fn push_bytes_array(out: &mut Vec<u8>, data: &Vec<u8>)
    ensures
        final(out)@ == old(out)@ + enc_bytes(data@),
{
    let ghost base = out@;
    out.push(0x5bu8);
    let mut i: usize = 0;
    while i < data.len()
        invariant
            0 <= i <= data@.len(),
            out@ == base + seq![0x5bu8] + enc_byte_items(data@.take(i as int)),
        decreases data@.len() - i,
    {
        if i > 0 {
            out.push(0x2cu8);
        }
        push_u64(out, data[i] as u64);
        proof {
            assert(data@.take(i + 1).drop_last() =~= data@.take(i as int));
            assert(data@.take(i + 1).last() == data@[i as int]);
            assert(out@ =~= base + seq![0x5bu8] + enc_byte_items(data@.take(i + 1)));
        }
        i = i + 1;
    }
    out.push(0x5du8);
    proof {
        assert(data@.take(data@.len() as int) =~= data@);
        assert(out@ =~= base + enc_bytes(data@));
    }
}

/// Append an id object.
fn push_id(out: &mut Vec<u8>, n: u32)
    ensures
        final(out)@ == old(out)@ + enc_id(n as nat),
{
    proof {
        reveal_strlit("{\"0\":");
        reveal_strlit("}");
    }
    push_ascii(out, "{\"0\":");
    push_u64(out, n as u64);
    push_ascii(out, "}");
    proof {
        assert(out@ =~= old(out)@ + enc_id(n as nat));
    }
}

/// Append a direction.
fn push_direction(out: &mut Vec<u8>, d: Direction)
    ensures
        final(out)@ == old(out)@ + enc_direction(d),
{
    proof {
        reveal_strlit("\"Horizontal\"");
        reveal_strlit("\"Vertical\"");
    }
    match d {
        Direction::Horizontal => push_ascii(out, "\"Horizontal\""),
        Direction::Vertical => push_ascii(out, "\"Vertical\""),
    }
}

/// Append a boolean.
fn push_bool(out: &mut Vec<u8>, b: bool)
    ensures
        final(out)@ == old(out)@ + enc_bool(b),
{
    proof {
        reveal_strlit("true");
        reveal_strlit("false");
    }
    if b {
        push_ascii(out, "true");
    } else {
        push_ascii(out, "false");
    }
}

/// Append a command.
fn push_cmd(out: &mut Vec<u8>, c: &MuxCommand)
    ensures
        final(out)@ == old(out)@ + enc_cmd(*c),
{
    proof {
        reveal_strlit("\"SplitHorizontal\"");
        reveal_strlit("\"SplitVertical\"");
        reveal_strlit("\"ClosePane\"");
        reveal_strlit("\"NextPane\"");
        reveal_strlit("\"PrevPane\"");
        reveal_strlit("{\"NavigatePane\":");
        reveal_strlit("\"NewWindow\"");
        reveal_strlit("\"CloseWindow\"");
        reveal_strlit("\"NextWindow\"");
        reveal_strlit("\"PrevWindow\"");
        reveal_strlit("{\"SwitchToWindow\":");
        reveal_strlit("{\"RenameWindow\":");
        reveal_strlit("\"DetachSession\"");
        reveal_strlit("\"ToggleZoom\"");
        reveal_strlit("{\"ResizePane\":[");
        reveal_strlit("\"ScrollbackMode\"");
        reveal_strlit(",");
        reveal_strlit("}");
        reveal_strlit("]}");
    }
    match c {
        MuxCommand::SplitHorizontal => push_ascii(out, "\"SplitHorizontal\""),
        MuxCommand::SplitVertical => push_ascii(out, "\"SplitVertical\""),
        MuxCommand::ClosePane => push_ascii(out, "\"ClosePane\""),
        MuxCommand::NextPane => push_ascii(out, "\"NextPane\""),
        MuxCommand::PrevPane => push_ascii(out, "\"PrevPane\""),
        MuxCommand::NavigatePane(d) => {
            push_ascii(out, "{\"NavigatePane\":");
            push_direction(out, *d);
            push_ascii(out, "}");
            proof {
                assert(out@ =~= old(out)@ + enc_cmd(*c));
            }
        },
        MuxCommand::NewWindow => push_ascii(out, "\"NewWindow\""),
        MuxCommand::CloseWindow => push_ascii(out, "\"CloseWindow\""),
        MuxCommand::NextWindow => push_ascii(out, "\"NextWindow\""),
        MuxCommand::PrevWindow => push_ascii(out, "\"PrevWindow\""),
        MuxCommand::SwitchToWindow(n) => {
            push_ascii(out, "{\"SwitchToWindow\":");
            push_u64(out, *n as u64);
            push_ascii(out, "}");
            proof {
                assert(out@ =~= old(out)@ + enc_cmd(*c));
            }
        },
        MuxCommand::RenameWindow(name) => {
            push_ascii(out, "{\"RenameWindow\":");
            push_string(out, name.as_str());
            push_ascii(out, "}");
            proof {
                assert(out@ =~= old(out)@ + enc_cmd(*c));
            }
        },
        MuxCommand::DetachSession => push_ascii(out, "\"DetachSession\""),
        MuxCommand::ToggleZoom => push_ascii(out, "\"ToggleZoom\""),
        MuxCommand::ResizePane(d, delta) => {
            push_ascii(out, "{\"ResizePane\":[");
            push_direction(out, *d);
            push_ascii(out, ",");
            push_i64(out, *delta as i64);
            push_ascii(out, "]}");
            proof {
                assert(out@ =~= old(out)@ + enc_cmd(*c));
            }
        },
        MuxCommand::ScrollbackMode => push_ascii(out, "\"ScrollbackMode\""),
    }
}

/// Append a layout tree node.
fn push_node(out: &mut Vec<u8>, t: &LayoutNode)
    ensures
        final(out)@ == old(out)@ + enc_node(*t),
    decreases *t,
{
    proof {
        reveal_strlit("{\"Leaf\":{\"pane_id\":");
        reveal_strlit("}}");
        reveal_strlit("{\"Split\":{\"direction\":");
        reveal_strlit(",\"ratio\":");
        reveal_strlit(",\"first\":");
        reveal_strlit(",\"second\":");
    }
    match t {
        LayoutNode::Leaf { pane_id } => {
            push_ascii(out, "{\"Leaf\":{\"pane_id\":");
            push_id(out, pane_id.0);
            push_ascii(out, "}}");
            proof {
                assert(out@ =~= old(out)@ + enc_node(*t));
            }
        },
        LayoutNode::Split { direction, ratio, first, second } => {
            push_ascii(out, "{\"Split\":{\"direction\":");
            push_direction(out, *direction);
            push_ascii(out, ",\"ratio\":");
            push_u64(out, *ratio as u64);
            push_ascii(out, ",\"first\":");
            push_node(out, first);
            push_ascii(out, ",\"second\":");
            push_node(out, second);
            push_ascii(out, "}}");
            proof {
                assert(out@ =~= old(out)@ + enc_node(*t));
            }
        },
    }
}

/// Append a pane's metadata.
fn push_pane(out: &mut Vec<u8>, p: &Pane)
    ensures
        final(out)@ == old(out)@ + enc_pane(*p),
{
    proof {
        reveal_strlit("{\"id\":");
        reveal_strlit(",\"title\":");
        reveal_strlit("}");
    }
    push_ascii(out, "{\"id\":");
    push_id(out, p.id.0);
    push_ascii(out, ",\"title\":");
    push_string(out, p.title.as_str());
    push_ascii(out, "}");
    proof {
        assert(out@ =~= old(out)@ + enc_pane(*p));
    }
}

/// Append a window.
#[verifier::rlimit(100)]
fn push_window(out: &mut Vec<u8>, w: &MuxWindow)
    ensures
        final(out)@ == old(out)@ + enc_window(*w),
{
    proof {
        reveal_strlit("{\"id\":");
        reveal_strlit(",\"name\":");
        reveal_strlit(",\"layout\":");
        reveal_strlit(",\"active_pane\":");
        reveal_strlit(",\"panes\":[");
        reveal_strlit("],\"next_pane_id\":");
        reveal_strlit(",\"zoomed\":");
        reveal_strlit("}");
        reveal_strlit(",");
    }
    let ghost base = out@;
    push_ascii(out, "{\"id\":");
    push_id(out, w.id.0);
    push_ascii(out, ",\"name\":");
    push_string(out, w.name.as_str());
    push_ascii(out, ",\"layout\":");
    push_node(out, &w.layout);
    push_ascii(out, ",\"active_pane\":");
    push_id(out, w.active_pane.0);
    push_ascii(out, ",\"panes\":[");
    let ghost mid = out@;
    let mut i: usize = 0;
    while i < w.panes.len()
        invariant
            0 <= i <= w.panes@.len(),
            out@ == mid + enc_pane_items(w.panes@.take(i as int)),
        decreases w.panes@.len() - i,
    {
        if i > 0 {
            out.push(0x2cu8);
        }
        push_pane(out, &w.panes[i]);
        proof {
            assert(w.panes@.take(i + 1).drop_last() =~= w.panes@.take(i as int));
            assert(w.panes@.take(i + 1).last() == w.panes@[i as int]);
            assert(out@ =~= mid + enc_pane_items(w.panes@.take(i + 1)));
        }
        i = i + 1;
    }
    proof {
        assert(w.panes@.take(w.panes@.len() as int) =~= w.panes@);
    }
    push_ascii(out, "],\"next_pane_id\":");
    push_u64(out, w.next_pane_id as u64);
    push_ascii(out, ",\"zoomed\":");
    push_bool(out, w.zoomed);
    push_ascii(out, "}");
    proof {
        assert(out@ =~= base + enc_window(*w));
    }
}

/// Append a session.
#[verifier::rlimit(100)]
fn push_session(out: &mut Vec<u8>, s: &Session)
    ensures
        final(out)@ == old(out)@ + enc_session(*s),
{
    proof {
        reveal_strlit("{\"id\":");
        reveal_strlit(",\"name\":");
        reveal_strlit(",\"windows\":[");
        reveal_strlit("],\"active_window\":");
        reveal_strlit(",\"next_window_id\":");
        reveal_strlit("}");
    }
    let ghost base = out@;
    push_ascii(out, "{\"id\":");
    push_id(out, s.id.0);
    push_ascii(out, ",\"name\":");
    push_string(out, s.name.as_str());
    push_ascii(out, ",\"windows\":[");
    let ghost mid = out@;
    let mut i: usize = 0;
    while i < s.windows.len()
        invariant
            0 <= i <= s.windows@.len(),
            out@ == mid + enc_window_items(s.windows@.take(i as int)),
        decreases s.windows@.len() - i,
    {
        if i > 0 {
            out.push(0x2cu8);
        }
        push_window(out, &s.windows[i]);
        proof {
            assert(s.windows@.take(i + 1).drop_last() =~= s.windows@.take(i as int));
            assert(s.windows@.take(i + 1).last() == s.windows@[i as int]);
            assert(out@ =~= mid + enc_window_items(s.windows@.take(i + 1)));
        }
        i = i + 1;
    }
    proof {
        assert(s.windows@.take(s.windows@.len() as int) =~= s.windows@);
    }
    push_ascii(out, "],\"active_window\":");
    push_u64(out, s.active_window as u64);
    push_ascii(out, ",\"next_window_id\":");
    push_u64(out, s.next_window_id as u64);
    push_ascii(out, "}");
    proof {
        assert(out@ =~= base + enc_session(*s));
    }
}

/// Encode a client message as JSON bytes.
pub fn encode_client_message(m: &crate::protocol::ClientMessage) -> (r: Vec<u8>)
    ensures
        r@ == enc_client(*m),
{
    proof {
        reveal_strlit("{\"Input\":");
        reveal_strlit("{\"Resize\":{\"rows\":");
        reveal_strlit(",\"cols\":");
        reveal_strlit("}}");
        reveal_strlit("{\"Command\":");
        reveal_strlit("}");
        reveal_strlit("\"Attach\"");
        reveal_strlit("\"Detach\"");
    }
    let mut out: Vec<u8> = Vec::new();
    match m {
        crate::protocol::ClientMessage::Input(data) => {
            push_ascii(&mut out, "{\"Input\":");
            push_bytes_array(&mut out, data);
            push_ascii(&mut out, "}");
        },
        crate::protocol::ClientMessage::Resize { rows, cols } => {
            push_ascii(&mut out, "{\"Resize\":{\"rows\":");
            push_u64(&mut out, *rows as u64);
            push_ascii(&mut out, ",\"cols\":");
            push_u64(&mut out, *cols as u64);
            push_ascii(&mut out, "}}");
        },
        crate::protocol::ClientMessage::Command(c) => {
            push_ascii(&mut out, "{\"Command\":");
            push_cmd(&mut out, c);
            push_ascii(&mut out, "}");
        },
        crate::protocol::ClientMessage::Attach => {
            push_ascii(&mut out, "\"Attach\"");
        },
        crate::protocol::ClientMessage::Detach => {
            push_ascii(&mut out, "\"Detach\"");
        },
    }
    proof {
        assert(out@ =~= enc_client(*m));
    }
    out
}

/// Encode a server message as JSON bytes.
pub fn encode_server_message(m: &crate::protocol::ServerMessage) -> (r: Vec<u8>)
    ensures
        r@ == enc_server(*m),
{
    proof {
        reveal_strlit("{\"Output\":{\"pane_id\":");
        reveal_strlit(",\"data\":");
        reveal_strlit("}}");
        reveal_strlit("{\"StateSync\":");
        reveal_strlit("{\"PaneExited\":");
        reveal_strlit("}");
        reveal_strlit("\"ServerShutdown\"");
    }
    let mut out: Vec<u8> = Vec::new();
    match m {
        crate::protocol::ServerMessage::Output { pane_id, data } => {
            push_ascii(&mut out, "{\"Output\":{\"pane_id\":");
            push_id(&mut out, pane_id.0);
            push_ascii(&mut out, ",\"data\":");
            push_bytes_array(&mut out, data);
            push_ascii(&mut out, "}}");
        },
        crate::protocol::ServerMessage::StateSync(s) => {
            push_ascii(&mut out, "{\"StateSync\":");
            push_session(&mut out, s);
            push_ascii(&mut out, "}");
        },
        crate::protocol::ServerMessage::PaneExited(pane_id) => {
            push_ascii(&mut out, "{\"PaneExited\":");
            push_id(&mut out, pane_id.0);
            push_ascii(&mut out, "}");
        },
        crate::protocol::ServerMessage::ServerShutdown => {
            push_ascii(&mut out, "\"ServerShutdown\"");
        },
    }
    proof {
        assert(out@ =~= enc_server(*m));
    }
    out
}

/// Encode a session as JSON bytes.
pub fn encode_session(s: &Session) -> (r: Vec<u8>)
    ensures
        r@ == enc_session(*s),
{
    let mut out: Vec<u8> = Vec::new();
    push_session(&mut out, s);
    proof {
        assert(out@ =~= enc_session(*s));
    }
    out
}

/// Relies on `char::from_u32`: `Some` holds exactly the character
/// with that code point.
#[verifier::external_body]
fn char_from_u32(v: u32) -> (r: Option<char>)
    ensures
        r matches Some(c) ==> c as u32 == v,
{
    char::from_u32(v)
}

/// The bytes of both buffers are the same.
fn bytes_eq(a: &Vec<u8>, b: &[u8]) -> (r: bool)
    ensures
        r == (a@ == b@),
{
    if a.len() != b.len() {
        proof {
            assert(a@ != b@);
        }
        return false;
    }
    let mut i: usize = 0;
    while i < a.len()
        invariant
            0 <= i <= a@.len(),
            a@.len() == b@.len(),
            forall|k: int| 0 <= k < i ==> a@[k] == b@[k],
        decreases a@.len() - i,
    {
        if a[i] != b[i] {
            return false;
        }
        i = i + 1;
    }
    proof {
        assert(a@ =~= b@);
    }
    true
}

/// Match the exact bytes of `token` at `pos`: succeeds, consuming
/// them, precisely when they sit there.
fn parse_exact(buf: &[u8], pos: usize, token: &str) -> (r: Option<usize>)
    requires
        pos <= buf@.len(),
        token@.len() > 0,
    ensures
        r matches Some(p) ==> pos < p <= buf@.len(),
        bytes_at(buf@, pos as int, token.spec_bytes()) ==> r == Some(
            (pos + token.spec_bytes().len()) as usize,
        ),
        !bytes_at(buf@, pos as int, token.spec_bytes()) ==> r is None,
{
    let tb = token.as_bytes();
    if tb.len() == 0 {
        return None;
    }
    if buf.len() - pos < tb.len() {
        return None;
    }
    let mut i: usize = 0;
    while i < tb.len()
        invariant
            0 <= i <= tb@.len(),
            tb@ == token.spec_bytes(),
            tb@.len() > 0,
            pos + tb@.len() <= buf@.len(),
            buf@.len() <= usize::MAX,
            forall|k: int| 0 <= k < i ==> buf@[pos + k] == tb@[k],
        decreases tb@.len() - i,
    {
        if buf[pos + i] != tb[i] {
            proof {
                assert(buf@.subrange(pos as int, pos + tb@.len())[i as int] != tb@[i as int]);
            }
            return None;
        }
        i = i + 1;
    }
    proof {
        assert(buf@.subrange(pos as int, pos + tb@.len()) =~= tb@);
    }
    Some(pos + tb.len())
}

/// Parse an unsigned decimal at `pos`: the canonical encoding of any
/// value, followed by anything but a digit (or by the end), always
/// parses back to that value, consuming exactly its digits.
fn parse_u64(buf: &[u8], pos: usize) -> (r: Option<(u64, usize)>)
    requires
        pos <= buf@.len(),
    ensures
        r matches Some(p) ==> pos < p.1 <= buf@.len(),
        pos < buf@.len() && buf@[pos as int] == 0x30 && (pos + 1 == buf@.len() || !(0x30
            <= buf@[pos + 1] <= 0x39)) ==> r == Some((0u64, (pos + 1) as usize)),
        forall|v: u64, rest: Seq<u8>|
            buf@.skip(pos as int) == #[trigger] (enc_nat(v as nat) + rest) && (rest.len() == 0
                || !(0x30 <= rest[0] <= 0x39)) ==> r == Some(
                (v, (pos + enc_nat(v as nat).len()) as usize),
            ),
{
    if pos >= buf.len() {
        proof {
            assert forall|v: u64, rest: Seq<u8>|
                buf@.skip(pos as int) == #[trigger] (enc_nat(v as nat) + rest) && (rest.len()
                    == 0 || !(0x30 <= rest[0] <= 0x39)) implies false by {
                lemma_enc_nat_shape(v as nat);
                assert(buf@.skip(pos as int).len() == buf@.len() - pos);
            }
        }
        return None;
    }
    let b = buf[pos];
    if !(0x30 <= b && b <= 0x39) {
        proof {
            assert forall|v: u64, rest: Seq<u8>|
                buf@.skip(pos as int) == #[trigger] (enc_nat(v as nat) + rest) && (rest.len()
                    == 0 || !(0x30 <= rest[0] <= 0x39)) implies false by {
                lemma_enc_nat_shape(v as nat);
                let e = enc_nat(v as nat);
                assert(buf@.skip(pos as int)[0] == buf@[pos as int]);
                assert((e + rest)[0] == e[0]);
            }
        }
        return None;
    }
    let mut acc: u64 = (b - 0x30) as u64;
    let mut p: usize = pos + 1;
    proof {
        assert forall|v: u64, rest: Seq<u8>|
            buf@.skip(pos as int) == #[trigger] (enc_nat(v as nat) + rest) && (rest.len() == 0
                || !(0x30 <= rest[0] <= 0x39)) implies p - pos <= enc_nat(v as nat).len() && acc
            == digits_val(enc_nat(v as nat).take(p - pos)) by {
            lemma_enc_nat_shape(v as nat);
            let e = enc_nat(v as nat);
            assert(buf@.skip(pos as int)[0] == buf@[pos as int]);
            assert((e + rest)[0] == e[0]);
            assert(0x30 <= e[0] <= 0x39);
            assert(e.take(1).drop_last() =~= Seq::<u8>::empty());
            assert(e.take(1).last() == e[0]);
            assert(digits_val(Seq::<u8>::empty()) == 0);
            assert(digits_val(e.take(1)) == (e[0] - 0x30) as nat);
        }
    }
    while p < buf.len()
        invariant
            pos < p <= buf@.len(),
            0x30 <= buf@[pos as int] <= 0x39,
            p == pos + 1 ==> acc == (buf@[pos as int] - 0x30) as u64,
            p > pos + 1 ==> pos + 1 < buf@.len() && 0x30 <= buf@[pos + 1] <= 0x39,
            forall|v: u64, rest: Seq<u8>|
                buf@.skip(pos as int) == #[trigger] (enc_nat(v as nat) + rest) && (rest.len()
                    == 0 || !(0x30 <= rest[0] <= 0x39)) ==> p - pos <= enc_nat(v as nat).len()
                    && acc == digits_val(enc_nat(v as nat).take(p - pos)),
        decreases buf@.len() - p,
    {
        let d = buf[p];
        if 0x30 <= d && d <= 0x39 {
            let dv = (d - 0x30) as u64;
            if acc > (u64::MAX - dv) / 10 {
                proof {
                    assert forall|v: u64, rest: Seq<u8>|
                        buf@.skip(pos as int) == #[trigger] (enc_nat(v as nat) + rest) && (
                        rest.len() == 0 || !(0x30 <= rest[0] <= 0x39)) implies false by {
                        lemma_enc_nat_shape(v as nat);
                        let e = enc_nat(v as nat);
                        assert(buf@.skip(pos as int)[p - pos] == buf@[p as int]);
                        if p - pos == e.len() {
                            assert((e + rest)[p - pos] == rest[0]);
                            assert(false);
                        }
                        assert((e + rest)[p - pos] == e[p - pos]);
                        assert(e.take(p - pos + 1).drop_last() =~= e.take(p - pos));
                        assert(e.take(p - pos + 1).last() == e[p - pos]);
                        assert(digits_val(e.take(p - pos + 1)) == acc * 10 + dv);
                        lemma_digits_val_prefix(e, p - pos + 1);
                        assert(digits_val(e) == v as nat);
                        assert(acc * 10 + dv <= v);
                        assert(acc * 10 + dv > u64::MAX) by (nonlinear_arith)
                            requires
                                acc > (u64::MAX - dv) / 10,
                                dv < 10,
                        ;
                    }
                }
                return None;
            }
            let ghost acc0 = acc;
            let ghost p0 = p;
            acc = acc * 10 + dv;
            p = p + 1;
            proof {
                assert forall|v: u64, rest: Seq<u8>|
                    buf@.skip(pos as int) == #[trigger] (enc_nat(v as nat) + rest) && (
                    rest.len() == 0 || !(0x30 <= rest[0] <= 0x39)) implies p - pos <= enc_nat(
                    v as nat,
                ).len() && acc == digits_val(enc_nat(v as nat).take(p - pos)) by {
                    lemma_enc_nat_shape(v as nat);
                    let e = enc_nat(v as nat);
                    assert(buf@.skip(pos as int)[p0 - pos] == buf@[p0 as int]);
                    if p0 - pos == e.len() {
                        assert((e + rest)[p0 - pos] == rest[0]);
                        assert(false);
                    }
                    assert((e + rest)[p0 - pos] == e[p0 - pos]);
                    assert(e.take(p - pos).drop_last() =~= e.take(p0 - pos));
                    assert(e.take(p - pos).last() == e[p0 - pos]);
                }
            }
        } else {
            proof {
                assert forall|v: u64, rest: Seq<u8>|
                    buf@.skip(pos as int) == #[trigger] (enc_nat(v as nat) + rest) && (
                    rest.len() == 0 || !(0x30 <= rest[0] <= 0x39)) implies acc == v && p == pos
                    + enc_nat(v as nat).len() by {
                    lemma_enc_nat_shape(v as nat);
                    let e = enc_nat(v as nat);
                    if p - pos < e.len() {
                        assert(buf@.skip(pos as int)[p - pos] == buf@[p as int]);
                        assert((e + rest)[p - pos] == e[p - pos]);
                        assert(0x30 <= e[p - pos] <= 0x39);
                        assert(false);
                    }
                    assert(e.take(e.len() as int) =~= e);
                }
            }
            return Some((acc, p));
        }
    }
    proof {
        assert forall|v: u64, rest: Seq<u8>|
            buf@.skip(pos as int) == #[trigger] (enc_nat(v as nat) + rest) && (rest.len() == 0
                || !(0x30 <= rest[0] <= 0x39)) implies acc == v && p == pos + enc_nat(
            v as nat,
        ).len() by {
            lemma_enc_nat_shape(v as nat);
            let e = enc_nat(v as nat);
            assert(buf@.skip(pos as int).len() == buf@.len() - pos);
            assert(e.len() + rest.len() == buf@.len() - pos);
            assert(e.take(e.len() as int) =~= e);
        }
    }
    Some((acc, p))
}

fn parse_u32(buf: &[u8], pos: usize) -> (r: Option<(u32, usize)>)
    requires
        pos <= buf@.len(),
    ensures
        r matches Some(p) ==> pos < p.1 <= buf@.len(),
        pos < buf@.len() && buf@[pos as int] == 0x30 && (pos + 1 == buf@.len() || !(0x30
            <= buf@[pos + 1] <= 0x39)) ==> r == Some((0u32, (pos + 1) as usize)),
        forall|v: u32, rest: Seq<u8>|
            buf@.skip(pos as int) == #[trigger] (enc_nat(v as nat) + rest) && (rest.len() == 0
                || !(0x30 <= rest[0] <= 0x39)) ==> r == Some(
                (v, (pos + enc_nat(v as nat).len()) as usize),
            ),
{
    proof {
        assert forall|v: u32, rest: Seq<u8>|
            buf@.skip(pos as int) == #[trigger] (enc_nat(v as nat) + rest) implies buf@.skip(
            pos as int,
        ) == enc_nat((v as u64) as nat) + rest by {
            assert((v as u64) as nat == v as nat);
        }
    }
    let (v, p) = parse_u64(buf, pos)?;
    if v > 0xffff_ffff {
        return None;
    }
    Some((v as u32, p))
}

fn parse_u16(buf: &[u8], pos: usize) -> (r: Option<(u16, usize)>)
    requires
        pos <= buf@.len(),
    ensures
        r matches Some(p) ==> pos < p.1 <= buf@.len(),
        forall|v: u16, rest: Seq<u8>|
            buf@.skip(pos as int) == #[trigger] (enc_nat(v as nat) + rest) && (rest.len() == 0
                || !(0x30 <= rest[0] <= 0x39)) ==> r == Some(
                (v, (pos + enc_nat(v as nat).len()) as usize),
            ),
{
    proof {
        assert forall|v: u16, rest: Seq<u8>|
            buf@.skip(pos as int) == #[trigger] (enc_nat(v as nat) + rest) implies buf@.skip(
            pos as int,
        ) == enc_nat((v as u64) as nat) + rest by {
            assert((v as u64) as nat == v as nat);
        }
    }
    let (v, p) = parse_u64(buf, pos)?;
    if v > 0xffff {
        return None;
    }
    Some((v as u16, p))
}

fn parse_u8(buf: &[u8], pos: usize) -> (r: Option<(u8, usize)>)
    requires
        pos <= buf@.len(),
    ensures
        r matches Some(p) ==> pos < p.1 <= buf@.len(),
        forall|v: u8, rest: Seq<u8>|
            buf@.skip(pos as int) == #[trigger] (enc_nat(v as nat) + rest) && (rest.len() == 0
                || !(0x30 <= rest[0] <= 0x39)) ==> r == Some(
                (v, (pos + enc_nat(v as nat).len()) as usize),
            ),
{
    proof {
        assert forall|v: u8, rest: Seq<u8>|
            buf@.skip(pos as int) == #[trigger] (enc_nat(v as nat) + rest) implies buf@.skip(
            pos as int,
        ) == enc_nat((v as u64) as nat) + rest by {
            assert((v as u64) as nat == v as nat);
        }
    }
    let (v, p) = parse_u64(buf, pos)?;
    if v > 0xff {
        return None;
    }
    Some((v as u8, p))
}

fn parse_i16(buf: &[u8], pos: usize) -> (r: Option<(i16, usize)>)
    requires
        pos <= buf@.len(),
    ensures
        r matches Some(p) ==> pos < p.1 <= buf@.len(),
        forall|v: i16, rest: Seq<u8>|
            buf@.skip(pos as int) == #[trigger] (enc_int(v as int) + rest) && (rest.len() == 0
                || !(0x30 <= rest[0] <= 0x39)) ==> r == Some(
                (v, (pos + enc_int(v as int).len()) as usize),
            ),
{
    proof {
        assert forall|v: i16, rest: Seq<u8>|
            buf@.skip(pos as int) == #[trigger] (enc_int(v as int) + rest) && v >= 0 implies ({
            &&& buf@.skip(pos as int) == enc_nat((v as u64) as nat) + rest
            &&& enc_int(v as int).len() == enc_nat((v as u64) as nat).len()
            &&& 0x30 <= enc_int(v as int)[0] <= 0x39
            &&& pos < buf@.len()
            &&& buf@[pos as int] == enc_int(v as int)[0]
        }) by {
            assert(enc_int(v as int) == enc_nat((v as int) as nat));
            assert((v as u64) as nat == (v as int) as nat);
            lemma_enc_nat_shape((v as u64) as nat);
            assert(buf@.skip(pos as int).len() == buf@.len() - pos);
            assert(buf@.skip(pos as int)[0] == buf@[pos as int]);
            assert((enc_int(v as int) + rest)[0] == enc_int(v as int)[0]);
        }
        assert forall|v: i16, rest: Seq<u8>|
            buf@.skip(pos as int) == #[trigger] (enc_int(v as int) + rest) && v < 0 implies ({
            &&& buf@.skip(pos as int + 1) == enc_nat(((-(v as int)) as u64) as nat) + rest
            &&& enc_int(v as int).len() == 1 + enc_nat(((-(v as int)) as u64) as nat).len()
            &&& enc_int(v as int)[0] == 0x2d
            &&& pos < buf@.len()
            &&& buf@[pos as int] == 0x2d
        }) by {
            assert(enc_int(v as int) == seq![0x2du8] + enc_nat((-(v as int)) as nat));
            assert(((-(v as int)) as u64) as nat == (-(v as int)) as nat);
            let tail = enc_nat(((-(v as int)) as u64) as nat) + rest;
            assert(buf@.skip(pos as int).len() == buf@.len() - pos);
            assert(buf@.skip(pos as int)[0] == buf@[pos as int]);
            assert((enc_int(v as int) + rest)[0] == enc_int(v as int)[0]);
            assert forall|i: int| 0 <= i < tail.len() implies buf@.skip(pos as int + 1)[i]
                == tail[i] by {
                assert(buf@.skip(pos as int + 1)[i] == buf@[pos + 1 + i]);
                assert(buf@.skip(pos as int)[1 + i] == buf@[pos + 1 + i]);
                assert((enc_int(v as int) + rest)[1 + i] == tail[i]);
            }
            assert(buf@.skip(pos as int + 1) =~= tail);
        }
    }
    if pos < buf.len() && buf[pos] == 0x2d {
        let (v, p) = parse_u64(buf, pos + 1)?;
        if v > 0x8000 {
            proof {
                assert forall|w: i16, rest: Seq<u8>|
                    buf@.skip(pos as int) == #[trigger] (enc_int(w as int) + rest) && (
                    rest.len() == 0 || !(0x30 <= rest[0] <= 0x39)) implies false by {
                    assert(w < 0);
                    assert(v == (-(w as int)) as u64);
                }
            }
            return None;
        }
        proof {
            assert forall|w: i16, rest: Seq<u8>|
                buf@.skip(pos as int) == #[trigger] (enc_int(w as int) + rest) && (rest.len()
                    == 0 || !(0x30 <= rest[0] <= 0x39)) implies ((-(v as i32)) as i16) == w && p
                == pos + enc_int(w as int).len() by {
                assert(w < 0);
                assert(v == (-(w as int)) as u64);
                assert(1 <= -(w as int) <= 0x8000);
                assert(v as int == -(w as int));
                assert((-(v as i32)) as int == w as int);
                assert(((-(v as i32)) as i16) == w);
                assert(buf@.skip(pos as int).len() == buf@.len() - pos);
                assert(enc_int(w as int).len() + rest.len() == buf@.len() - pos);
                assert(p == pos + 1 + enc_nat(((-(w as int)) as u64) as nat).len());
                assert(enc_int(w as int).len() == 1 + enc_nat(
                    ((-(w as int)) as u64) as nat,
                ).len());
            }
        }
        Some(((-(v as i32)) as i16, p))
    } else {
        let (v, p) = parse_u64(buf, pos)?;
        if v > 0x7fff {
            proof {
                assert forall|w: i16, rest: Seq<u8>|
                    buf@.skip(pos as int) == #[trigger] (enc_int(w as int) + rest) && (
                    rest.len() == 0 || !(0x30 <= rest[0] <= 0x39)) implies false by {
                    assert(w >= 0);
                    assert(v == w as u64);
                }
            }
            return None;
        }
        proof {
            assert forall|w: i16, rest: Seq<u8>|
                buf@.skip(pos as int) == #[trigger] (enc_int(w as int) + rest) && (rest.len()
                    == 0 || !(0x30 <= rest[0] <= 0x39)) implies (v as i16) == w && p == pos
                + enc_int(w as int).len() by {
                assert(w >= 0);
                assert(v == w as u64);
                assert(v as int == w as int);
                assert((v as i16) == w);
                assert(buf@.skip(pos as int).len() == buf@.len() - pos);
                assert(enc_int(w as int).len() + rest.len() == buf@.len() - pos);
                assert(p == pos + enc_nat((w as u64) as nat).len());
                assert(enc_int(w as int).len() == enc_nat((w as u64) as nat).len());
            }
        }
        Some((v as i16, p))
    }
}

/// Parse an id object at `pos`: the encoding of any id always
/// parses back to it, consuming exactly its bytes.
fn parse_id(buf: &[u8], pos: usize) -> (r: Option<(u32, usize)>)
    requires
        pos <= buf@.len(),
    ensures
        r matches Some(p) ==> pos < p.1 <= buf@.len(),
        pos + 7 <= buf@.len() && buf@.subrange(pos as int, pos + 7) == enc_id(0) ==> r == Some(
            (0u32, (pos + 7) as usize),
        ),
        forall|v: u32, rest: Seq<u8>|
            buf@.skip(pos as int) == #[trigger] (enc_id(v as nat) + rest) ==> r == Some(
                (v, (pos + enc_id(v as nat).len()) as usize),
            ),
{
    proof {
        reveal_strlit("{\"0\":");
        reveal_strlit("}");
        lemma_token_bytes("{\"0\":");
        lemma_token_bytes("}");
        assert forall|v: u32, rest: Seq<u8>|
            buf@.skip(pos as int) == #[trigger] (enc_id(v as nat) + rest) implies ({
            &&& bytes_at(buf@, pos as int, ascii_of("{\"0\":"@))
            &&& buf@.skip(pos as int + 5) == enc_nat(v as nat) + (ascii_of("}"@) + rest)
            &&& bytes_at(buf@, pos as int + 5 + enc_nat(v as nat).len(), ascii_of("}"@))
            &&& enc_id(v as nat).len() == 6 + enc_nat(v as nat).len()
            &&& pos + enc_id(v as nat).len() <= buf@.len()
        }) by {
            let me = enc_id(v as nat);
            let ecl = enc_nat(v as nat).len() as int;
            assert(me == ascii_of("{\"0\":"@) + enc_nat(v as nat) + ascii_of("}"@));
            assert(ascii_of("{\"0\":"@).len() == 5);
            assert(me.len() == 6 + ecl);
            assert(buf@.skip(pos as int).len() == buf@.len() - pos);
            assert forall|i: int| 0 <= i < me.len() implies buf@[pos + i] == me[i] by {
                assert(buf@.skip(pos as int)[i] == buf@[pos + i]);
                assert(buf@.skip(pos as int)[i] == (me + rest)[i]);
            }
            assert forall|j: int|
                0 <= j < 5 implies buf@.subrange(pos as int, pos + 5)[j] == ascii_of(
                "{\"0\":"@,
            )[j] by {
                assert(buf@[pos + j] == me[j]);
                assert(me[j] == ascii_of("{\"0\":"@)[j]);
            }
            assert(buf@.subrange(pos as int, pos + 5) =~= ascii_of("{\"0\":"@));
            assert forall|i: int|
                0 <= i < buf@.len() - pos - 5 implies buf@.skip(pos as int + 5)[i] == (
            enc_nat(v as nat) + (ascii_of("}"@) + rest))[i] by {
                assert(buf@.skip(pos as int + 5)[i] == buf@[pos + 5 + i]);
                assert(buf@.skip(pos as int)[5 + i] == buf@[pos + 5 + i]);
                assert(buf@.skip(pos as int)[5 + i] == (me + rest)[5 + i]);
                if 5 + i < me.len() {
                    assert((me + rest)[5 + i] == me[5 + i]);
                } else {
                    assert((me + rest)[5 + i] == rest[5 + i - me.len()]);
                }
            }
            assert(buf@.skip(pos as int + 5) =~= enc_nat(v as nat) + (ascii_of("}"@) + rest));
            assert(buf@[pos + 5 + ecl] == me[5 + ecl]);
            assert(me[5 + ecl] == ascii_of("}"@)[0]);
            assert(buf@.subrange(pos + 5 + ecl, pos + 6 + ecl) =~= ascii_of("}"@));
        }
    }
    proof {
        reveal_strlit("{\"0\":");
        reveal_strlit("}");
        lemma_token_bytes("{\"0\":");
        lemma_token_bytes("}");
        if pos + 7 <= buf@.len() && buf@.subrange(pos as int, pos + 7) == enc_id(0) {
            let whole = enc_id(0);
            assert(whole == ascii_of("{\"0\":"@) + enc_nat(0) + ascii_of("}"@));
            assert(ascii_of("{\"0\":"@).len() == 5);
            assert(enc_nat(0) == seq![digit_byte(0)]);
            assert(whole.len() == 7);
            assert forall|i: int| 0 <= i < 7 implies buf@[pos + i] == whole[i] by {
                assert(buf@.subrange(pos as int, pos + 7)[i] == whole[i]);
            }
            assert(whole[5] == digit_byte(0));
            assert(whole[6] == ascii_of("}"@)[0]);
            assert(buf@[pos + 5] == 0x30);
            assert(buf@[pos + 6] == 0x7d);
            assert(buf@.subrange(pos as int, pos + 5) =~= ascii_of("{\"0\":"@));
            assert(buf@.subrange(pos + 6, pos + 7) =~= ascii_of("}"@));
        }
    }
    let n = buf.len();
    proof {
        assert(buf@.len() == n);
    }
    let p = parse_exact(buf, pos, "{\"0\":")?;
    proof {
        if pos + 7 <= buf@.len() && buf@.subrange(pos as int, pos + 7) == enc_id(0) {
            assert(p == pos + 5);
        }
    }
    let (v, p2) = parse_u32(buf, p)?;
    proof {
        if pos + 7 <= buf@.len() && buf@.subrange(pos as int, pos + 7) == enc_id(0) {
            assert(v == 0 && p2 == pos + 6);
        }
    }
    let p3 = parse_exact(buf, p2, "}")?;
    proof {
        if pos + 7 <= buf@.len() && buf@.subrange(pos as int, pos + 7) == enc_id(0) {
            assert(p3 == pos + 7);
        }
    }
    Some((v, p3))
}

fn parse_bool(buf: &[u8], pos: usize) -> (r: Option<(bool, usize)>)
    requires
        pos <= buf@.len(),
    ensures
        r matches Some(p) ==> pos < p.1 <= buf@.len(),
{
    proof {
        reveal_strlit("true");
        reveal_strlit("false");
    }
    match parse_exact(buf, pos, "true") {
        Some(p) => Some((true, p)),
        None => {
            let p = parse_exact(buf, pos, "false")?;
            Some((false, p))
        },
    }
}

/// Parse a direction at `pos`: succeeds, consuming its token,
/// precisely when one of the two direction tokens sits there.
fn parse_direction(buf: &[u8], pos: usize) -> (r: Option<(Direction, usize)>)
    requires
        pos <= buf@.len(),
    ensures
        r matches Some(p) ==> pos < p.1 <= buf@.len(),
        bytes_at(buf@, pos as int, ascii_of("\"Horizontal\""@)) ==> r == Some(
            (Direction::Horizontal, (pos + 12) as usize),
        ),
        !bytes_at(buf@, pos as int, ascii_of("\"Horizontal\""@)) && bytes_at(
            buf@,
            pos as int,
            ascii_of("\"Vertical\""@),
        ) ==> r == Some((Direction::Vertical, (pos + 10) as usize)),
{
    proof {
        reveal_strlit("\"Horizontal\"");
        reveal_strlit("\"Vertical\"");
        lemma_token_bytes("\"Horizontal\"");
        lemma_token_bytes("\"Vertical\"");
    }
    match parse_exact(buf, pos, "\"Horizontal\"") {
        Some(p) => Some((Direction::Horizontal, p)),
        None => {
            let p = parse_exact(buf, pos, "\"Vertical\"")?;
            Some((Direction::Vertical, p))
        },
    }
}

fn hex_value(b: u8) -> (r: Option<u32>)
    ensures
        r matches Some(v) ==> v < 16,
{
    if 0x30 <= b && b <= 0x39 {
        Some((b - 0x30) as u32)
    } else if 0x61 <= b && b <= 0x66 {
        Some((b - 0x57) as u32)
    } else {
        None
    }
}

fn parse_hex4(buf: &[u8], pos: usize) -> (r: Option<(u32, usize)>)
    requires
        pos <= buf@.len(),
    ensures
        r matches Some(p) ==> pos < p.1 <= buf@.len() && p.0 < 0x10000,
{
    if buf.len() - pos < 4 {
        return None;
    }
    let d0 = hex_value(buf[pos])?;
    let d1 = hex_value(buf[pos + 1])?;
    let d2 = hex_value(buf[pos + 2])?;
    let d3 = hex_value(buf[pos + 3])?;
    let v: u32 = ((d0 * 16 + d1) * 16 + d2) * 16 + d3;
    Some((v, pos + 4))
}

/// Parse a JSON string at `pos`. The empty string always parses.
fn parse_string(buf: &[u8], pos: usize) -> (r: Option<(String, usize)>)
    requires
        pos <= buf@.len(),
    ensures
        r matches Some(p) ==> pos < p.1 <= buf@.len(),
        pos + 2 <= buf@.len() && buf@[pos as int] == 0x22 && buf@[pos + 1] == 0x22 ==> (
        r matches Some(p) && p.0@ == Seq::<char>::empty() && p.1 == pos + 2),
{
    if pos >= buf.len() || buf[pos] != 0x22 {
        return None;
    }
    let mut out = String::new();
    let mut p: usize = pos + 1;
    while p < buf.len()
        invariant
            pos < p <= buf@.len(),
            p == pos + 1 ==> out@ == Seq::<char>::empty(),
            p > pos + 1 ==> pos + 1 < buf@.len() && buf@[pos + 1] != 0x22,
        decreases buf@.len() - p,
    {
        let b = buf[p];
        if b == 0x22 {
            return Some((out, p + 1));
        } else if b == 0x5c {
            if p + 1 >= buf.len() {
                return None;
            }
            let e = buf[p + 1];
            if e == 0x22 {
                push_char(&mut out, '"');
                p = p + 2;
            } else if e == 0x5c {
                push_char(&mut out, '\\');
                p = p + 2;
            } else if e == 0x75 {
                let (v, p2) = parse_hex4(buf, p + 2)?;
                if 0xd800 <= v && v < 0xdc00 {
                    // A surrogate pair: the low half must follow.
                    proof {
                        reveal_strlit("\\u");
                    }
                    let p3 = parse_exact(buf, p2, "\\u")?;
                    let (lo, p4) = parse_hex4(buf, p3)?;
                    if !(0xdc00 <= lo && lo < 0xe000) {
                        return None;
                    }
                    let code: u32 = 0x10000 + (v - 0xd800) * 0x400 + (lo - 0xdc00);
                    let c = char_from_u32(code)?;
                    push_char(&mut out, c);
                    p = p4;
                } else {
                    let c = char_from_u32(v)?;
                    push_char(&mut out, c);
                    p = p2;
                }
            } else {
                return None;
            }
        } else if 0x20 <= b && b <= 0x7e {
            push_char(&mut out, (b as char));
            p = p + 1;
        } else {
            return None;
        }
    }
    None
}

/// Parse a JSON array of byte values at `pos`.
fn parse_bytes_array(buf: &[u8], pos: usize) -> (r: Option<(Vec<u8>, usize)>)
    requires
        pos <= buf@.len(),
    ensures
        r matches Some(p) ==> pos < p.1 <= buf@.len(),
{
    if pos >= buf.len() || buf[pos] != 0x5b {
        return None;
    }
    let mut out: Vec<u8> = Vec::new();
    let mut p: usize = pos + 1;
    if p < buf.len() && buf[p] == 0x5d {
        return Some((out, p + 1));
    }
    loop
        invariant
            pos < p <= buf@.len(),
        decreases buf@.len() - p,
    {
        let (v, p2) = parse_u8(buf, p)?;
        out.push(v);
        if p2 >= buf.len() {
            return None;
        }
        if buf[p2] == 0x5d {
            return Some((out, p2 + 1));
        }
        if buf[p2] != 0x2c {
            return None;
        }
        p = p2 + 1;
    }
}

/// A command that carries no number or text payload: its encoding
/// is a fixed token (with the direction token for a navigation).
pub open spec fn plain_cmd(c: MuxCommand) -> bool {
    match c {
        MuxCommand::SwitchToWindow(_) => false,
        MuxCommand::RenameWindow(_) => false,
        MuxCommand::ResizePane(_, _) => false,
        _ => true,
    }
}

/// Where the command tokens sit when the buffer at `pos` starts
/// with the encoding of the payload-free command `c`: its own
/// token is there, no earlier-tried token is, and for a
/// navigation command the direction token and the closing brace
/// follow.
pub open spec fn cmd_token_layout(buf: Seq<u8>, pos: int, c: MuxCommand) -> bool {
    match c {
        MuxCommand::SplitHorizontal => {
            &&& bytes_at(buf, pos, ascii_of("\"SplitHorizontal\""@))
        },
        MuxCommand::SplitVertical => {
            &&& !bytes_at(buf, pos, ascii_of("\"SplitHorizontal\""@))
            &&& bytes_at(buf, pos, ascii_of("\"SplitVertical\""@))
        },
        MuxCommand::ClosePane => {
            &&& !bytes_at(buf, pos, ascii_of("\"SplitHorizontal\""@))
            &&& !bytes_at(buf, pos, ascii_of("\"SplitVertical\""@))
            &&& bytes_at(buf, pos, ascii_of("\"ClosePane\""@))
        },
        MuxCommand::NextPane => {
            &&& !bytes_at(buf, pos, ascii_of("\"SplitHorizontal\""@))
            &&& !bytes_at(buf, pos, ascii_of("\"SplitVertical\""@))
            &&& !bytes_at(buf, pos, ascii_of("\"ClosePane\""@))
            &&& bytes_at(buf, pos, ascii_of("\"NextPane\""@))
        },
        MuxCommand::PrevPane => {
            &&& !bytes_at(buf, pos, ascii_of("\"SplitHorizontal\""@))
            &&& !bytes_at(buf, pos, ascii_of("\"SplitVertical\""@))
            &&& !bytes_at(buf, pos, ascii_of("\"ClosePane\""@))
            &&& !bytes_at(buf, pos, ascii_of("\"NextPane\""@))
            &&& bytes_at(buf, pos, ascii_of("\"PrevPane\""@))
        },
        MuxCommand::NewWindow => {
            &&& !bytes_at(buf, pos, ascii_of("\"SplitHorizontal\""@))
            &&& !bytes_at(buf, pos, ascii_of("\"SplitVertical\""@))
            &&& !bytes_at(buf, pos, ascii_of("\"ClosePane\""@))
            &&& !bytes_at(buf, pos, ascii_of("\"NextPane\""@))
            &&& !bytes_at(buf, pos, ascii_of("\"PrevPane\""@))
            &&& bytes_at(buf, pos, ascii_of("\"NewWindow\""@))
        },
        MuxCommand::CloseWindow => {
            &&& !bytes_at(buf, pos, ascii_of("\"SplitHorizontal\""@))
            &&& !bytes_at(buf, pos, ascii_of("\"SplitVertical\""@))
            &&& !bytes_at(buf, pos, ascii_of("\"ClosePane\""@))
            &&& !bytes_at(buf, pos, ascii_of("\"NextPane\""@))
            &&& !bytes_at(buf, pos, ascii_of("\"PrevPane\""@))
            &&& !bytes_at(buf, pos, ascii_of("\"NewWindow\""@))
            &&& bytes_at(buf, pos, ascii_of("\"CloseWindow\""@))
        },
        MuxCommand::NextWindow => {
            &&& !bytes_at(buf, pos, ascii_of("\"SplitHorizontal\""@))
            &&& !bytes_at(buf, pos, ascii_of("\"SplitVertical\""@))
            &&& !bytes_at(buf, pos, ascii_of("\"ClosePane\""@))
            &&& !bytes_at(buf, pos, ascii_of("\"NextPane\""@))
            &&& !bytes_at(buf, pos, ascii_of("\"PrevPane\""@))
            &&& !bytes_at(buf, pos, ascii_of("\"NewWindow\""@))
            &&& !bytes_at(buf, pos, ascii_of("\"CloseWindow\""@))
            &&& bytes_at(buf, pos, ascii_of("\"NextWindow\""@))
        },
        MuxCommand::PrevWindow => {
            &&& !bytes_at(buf, pos, ascii_of("\"SplitHorizontal\""@))
            &&& !bytes_at(buf, pos, ascii_of("\"SplitVertical\""@))
            &&& !bytes_at(buf, pos, ascii_of("\"ClosePane\""@))
            &&& !bytes_at(buf, pos, ascii_of("\"NextPane\""@))
            &&& !bytes_at(buf, pos, ascii_of("\"PrevPane\""@))
            &&& !bytes_at(buf, pos, ascii_of("\"NewWindow\""@))
            &&& !bytes_at(buf, pos, ascii_of("\"CloseWindow\""@))
            &&& !bytes_at(buf, pos, ascii_of("\"NextWindow\""@))
            &&& bytes_at(buf, pos, ascii_of("\"PrevWindow\""@))
        },
        MuxCommand::DetachSession => {
            &&& !bytes_at(buf, pos, ascii_of("\"SplitHorizontal\""@))
            &&& !bytes_at(buf, pos, ascii_of("\"SplitVertical\""@))
            &&& !bytes_at(buf, pos, ascii_of("\"ClosePane\""@))
            &&& !bytes_at(buf, pos, ascii_of("\"NextPane\""@))
            &&& !bytes_at(buf, pos, ascii_of("\"PrevPane\""@))
            &&& !bytes_at(buf, pos, ascii_of("\"NewWindow\""@))
            &&& !bytes_at(buf, pos, ascii_of("\"CloseWindow\""@))
            &&& !bytes_at(buf, pos, ascii_of("\"NextWindow\""@))
            &&& !bytes_at(buf, pos, ascii_of("\"PrevWindow\""@))
            &&& bytes_at(buf, pos, ascii_of("\"DetachSession\""@))
        },
        MuxCommand::ToggleZoom => {
            &&& !bytes_at(buf, pos, ascii_of("\"SplitHorizontal\""@))
            &&& !bytes_at(buf, pos, ascii_of("\"SplitVertical\""@))
            &&& !bytes_at(buf, pos, ascii_of("\"ClosePane\""@))
            &&& !bytes_at(buf, pos, ascii_of("\"NextPane\""@))
            &&& !bytes_at(buf, pos, ascii_of("\"PrevPane\""@))
            &&& !bytes_at(buf, pos, ascii_of("\"NewWindow\""@))
            &&& !bytes_at(buf, pos, ascii_of("\"CloseWindow\""@))
            &&& !bytes_at(buf, pos, ascii_of("\"NextWindow\""@))
            &&& !bytes_at(buf, pos, ascii_of("\"PrevWindow\""@))
            &&& !bytes_at(buf, pos, ascii_of("\"DetachSession\""@))
            &&& bytes_at(buf, pos, ascii_of("\"ToggleZoom\""@))
        },
        MuxCommand::ScrollbackMode => {
            &&& !bytes_at(buf, pos, ascii_of("\"SplitHorizontal\""@))
            &&& !bytes_at(buf, pos, ascii_of("\"SplitVertical\""@))
            &&& !bytes_at(buf, pos, ascii_of("\"ClosePane\""@))
            &&& !bytes_at(buf, pos, ascii_of("\"NextPane\""@))
            &&& !bytes_at(buf, pos, ascii_of("\"PrevPane\""@))
            &&& !bytes_at(buf, pos, ascii_of("\"NewWindow\""@))
            &&& !bytes_at(buf, pos, ascii_of("\"CloseWindow\""@))
            &&& !bytes_at(buf, pos, ascii_of("\"NextWindow\""@))
            &&& !bytes_at(buf, pos, ascii_of("\"PrevWindow\""@))
            &&& !bytes_at(buf, pos, ascii_of("\"DetachSession\""@))
            &&& !bytes_at(buf, pos, ascii_of("\"ToggleZoom\""@))
            &&& bytes_at(buf, pos, ascii_of("\"ScrollbackMode\""@))
        },
        MuxCommand::NavigatePane(d) => {
            &&& !bytes_at(buf, pos, ascii_of("\"SplitHorizontal\""@))
            &&& !bytes_at(buf, pos, ascii_of("\"SplitVertical\""@))
            &&& !bytes_at(buf, pos, ascii_of("\"ClosePane\""@))
            &&& !bytes_at(buf, pos, ascii_of("\"NextPane\""@))
            &&& !bytes_at(buf, pos, ascii_of("\"PrevPane\""@))
            &&& !bytes_at(buf, pos, ascii_of("\"NewWindow\""@))
            &&& !bytes_at(buf, pos, ascii_of("\"CloseWindow\""@))
            &&& !bytes_at(buf, pos, ascii_of("\"NextWindow\""@))
            &&& !bytes_at(buf, pos, ascii_of("\"PrevWindow\""@))
            &&& !bytes_at(buf, pos, ascii_of("\"DetachSession\""@))
            &&& !bytes_at(buf, pos, ascii_of("\"ToggleZoom\""@))
            &&& !bytes_at(buf, pos, ascii_of("\"ScrollbackMode\""@))
            &&& bytes_at(buf, pos, ascii_of("{\"NavigatePane\":"@))
            &&& (d == Direction::Horizontal ==> bytes_at(
                buf, pos + 16, ascii_of("\"Horizontal\""@)) && bytes_at(
                buf, pos + 28, ascii_of("}"@)))
            &&& (d == Direction::Vertical ==> !bytes_at(
                buf, pos + 16, ascii_of("\"Horizontal\""@)) && bytes_at(
                buf, pos + 16, ascii_of("\"Vertical\""@)) && bytes_at(
                buf, pos + 26, ascii_of("}"@)))
        },
        _ => true,
    }
}

/// The buffer layout that the encoding of a payload-free command
/// forces at `pos`.
proof fn lemma_cmd_token_layout(buf: Seq<u8>, pos: int, c: MuxCommand, rest: Seq<u8>)
    requires
        plain_cmd(c),
        0 <= pos <= buf.len(),
        buf.skip(pos) == enc_cmd(c) + rest,
    ensures
        cmd_token_layout(buf, pos, c),
        pos + enc_cmd(c).len() <= buf.len(),
{
    reveal_strlit("\"SplitHorizontal\"");
    reveal_strlit("\"SplitVertical\"");
    reveal_strlit("\"ClosePane\"");
    reveal_strlit("\"NextPane\"");
    reveal_strlit("\"PrevPane\"");
    reveal_strlit("\"NewWindow\"");
    reveal_strlit("\"CloseWindow\"");
    reveal_strlit("\"NextWindow\"");
    reveal_strlit("\"PrevWindow\"");
    reveal_strlit("\"DetachSession\"");
    reveal_strlit("\"ToggleZoom\"");
    reveal_strlit("\"ScrollbackMode\"");
    reveal_strlit("{\"NavigatePane\":");
    reveal_strlit("\"Horizontal\"");
    reveal_strlit("\"Vertical\"");
    reveal_strlit("}");
    assert(buf.skip(pos).len() == buf.len() - pos);
    assert forall|i: int| 0 <= i < enc_cmd(c).len() implies buf[pos + i] == enc_cmd(
        c,
    )[i] by {
        assert(buf.skip(pos)[i] == buf[pos + i]);
        assert(buf.skip(pos)[i] == (enc_cmd(c) + rest)[i]);
    }
    match c {
        MuxCommand::SplitHorizontal => {
            assert(enc_cmd(c) == ascii_of("\"SplitHorizontal\""@));
            assert(buf.subrange(pos, pos + 17) =~= ascii_of("\"SplitHorizontal\""@));
        },
        MuxCommand::SplitVertical => {
            assert(enc_cmd(c) == ascii_of("\"SplitVertical\""@));
            assert(buf.subrange(pos, pos + 15) =~= ascii_of("\"SplitVertical\""@));
            if bytes_at(buf, pos, ascii_of("\"SplitHorizontal\""@)) {
                assert(buf.subrange(pos, pos + 17)[6] == ascii_of(
                    "\"SplitHorizontal\""@,
                )[6]);
                assert(buf[pos + 6] == 'H' as u8);
                assert(enc_cmd(c)[6] == 'V' as u8);
                assert(false);
            }
        },
        MuxCommand::ClosePane => {
            assert(enc_cmd(c) == ascii_of("\"ClosePane\""@));
            assert(buf.subrange(pos, pos + 11) =~= ascii_of("\"ClosePane\""@));
            if bytes_at(buf, pos, ascii_of("\"SplitHorizontal\""@)) {
                assert(buf.subrange(pos, pos + 17)[1] == ascii_of(
                    "\"SplitHorizontal\""@,
                )[1]);
                assert(buf[pos + 1] == 'S' as u8);
                assert(enc_cmd(c)[1] == 'C' as u8);
                assert(false);
            }
            if bytes_at(buf, pos, ascii_of("\"SplitVertical\""@)) {
                assert(buf.subrange(pos, pos + 15)[1] == ascii_of(
                    "\"SplitVertical\""@,
                )[1]);
                assert(buf[pos + 1] == 'S' as u8);
                assert(enc_cmd(c)[1] == 'C' as u8);
                assert(false);
            }
        },
        MuxCommand::NextPane => {
            assert(enc_cmd(c) == ascii_of("\"NextPane\""@));
            assert(buf.subrange(pos, pos + 10) =~= ascii_of("\"NextPane\""@));
            if bytes_at(buf, pos, ascii_of("\"SplitHorizontal\""@)) {
                assert(buf.subrange(pos, pos + 17)[1] == ascii_of(
                    "\"SplitHorizontal\""@,
                )[1]);
                assert(buf[pos + 1] == 'S' as u8);
                assert(enc_cmd(c)[1] == 'N' as u8);
                assert(false);
            }
            if bytes_at(buf, pos, ascii_of("\"SplitVertical\""@)) {
                assert(buf.subrange(pos, pos + 15)[1] == ascii_of(
                    "\"SplitVertical\""@,
                )[1]);
                assert(buf[pos + 1] == 'S' as u8);
                assert(enc_cmd(c)[1] == 'N' as u8);
                assert(false);
            }
            if bytes_at(buf, pos, ascii_of("\"ClosePane\""@)) {
                assert(buf.subrange(pos, pos + 11)[1] == ascii_of(
                    "\"ClosePane\""@,
                )[1]);
                assert(buf[pos + 1] == 'C' as u8);
                assert(enc_cmd(c)[1] == 'N' as u8);
                assert(false);
            }
        },
        MuxCommand::PrevPane => {
            assert(enc_cmd(c) == ascii_of("\"PrevPane\""@));
            assert(buf.subrange(pos, pos + 10) =~= ascii_of("\"PrevPane\""@));
            if bytes_at(buf, pos, ascii_of("\"SplitHorizontal\""@)) {
                assert(buf.subrange(pos, pos + 17)[1] == ascii_of(
                    "\"SplitHorizontal\""@,
                )[1]);
                assert(buf[pos + 1] == 'S' as u8);
                assert(enc_cmd(c)[1] == 'P' as u8);
                assert(false);
            }
            if bytes_at(buf, pos, ascii_of("\"SplitVertical\""@)) {
                assert(buf.subrange(pos, pos + 15)[1] == ascii_of(
                    "\"SplitVertical\""@,
                )[1]);
                assert(buf[pos + 1] == 'S' as u8);
                assert(enc_cmd(c)[1] == 'P' as u8);
                assert(false);
            }
            if bytes_at(buf, pos, ascii_of("\"ClosePane\""@)) {
                assert(buf.subrange(pos, pos + 11)[1] == ascii_of(
                    "\"ClosePane\""@,
                )[1]);
                assert(buf[pos + 1] == 'C' as u8);
                assert(enc_cmd(c)[1] == 'P' as u8);
                assert(false);
            }
            if bytes_at(buf, pos, ascii_of("\"NextPane\""@)) {
                assert(buf.subrange(pos, pos + 10)[1] == ascii_of(
                    "\"NextPane\""@,
                )[1]);
                assert(buf[pos + 1] == 'N' as u8);
                assert(enc_cmd(c)[1] == 'P' as u8);
                assert(false);
            }
        },
        MuxCommand::NewWindow => {
            assert(enc_cmd(c) == ascii_of("\"NewWindow\""@));
            assert(buf.subrange(pos, pos + 11) =~= ascii_of("\"NewWindow\""@));
            if bytes_at(buf, pos, ascii_of("\"SplitHorizontal\""@)) {
                assert(buf.subrange(pos, pos + 17)[1] == ascii_of(
                    "\"SplitHorizontal\""@,
                )[1]);
                assert(buf[pos + 1] == 'S' as u8);
                assert(enc_cmd(c)[1] == 'N' as u8);
                assert(false);
            }
            if bytes_at(buf, pos, ascii_of("\"SplitVertical\""@)) {
                assert(buf.subrange(pos, pos + 15)[1] == ascii_of(
                    "\"SplitVertical\""@,
                )[1]);
                assert(buf[pos + 1] == 'S' as u8);
                assert(enc_cmd(c)[1] == 'N' as u8);
                assert(false);
            }
            if bytes_at(buf, pos, ascii_of("\"ClosePane\""@)) {
                assert(buf.subrange(pos, pos + 11)[1] == ascii_of(
                    "\"ClosePane\""@,
                )[1]);
                assert(buf[pos + 1] == 'C' as u8);
                assert(enc_cmd(c)[1] == 'N' as u8);
                assert(false);
            }
            if bytes_at(buf, pos, ascii_of("\"NextPane\""@)) {
                assert(buf.subrange(pos, pos + 10)[3] == ascii_of(
                    "\"NextPane\""@,
                )[3]);
                assert(buf[pos + 3] == 'x' as u8);
                assert(enc_cmd(c)[3] == 'w' as u8);
                assert(false);
            }
            if bytes_at(buf, pos, ascii_of("\"PrevPane\""@)) {
                assert(buf.subrange(pos, pos + 10)[1] == ascii_of(
                    "\"PrevPane\""@,
                )[1]);
                assert(buf[pos + 1] == 'P' as u8);
                assert(enc_cmd(c)[1] == 'N' as u8);
                assert(false);
            }
        },
        MuxCommand::CloseWindow => {
            assert(enc_cmd(c) == ascii_of("\"CloseWindow\""@));
            assert(buf.subrange(pos, pos + 13) =~= ascii_of("\"CloseWindow\""@));
            if bytes_at(buf, pos, ascii_of("\"SplitHorizontal\""@)) {
                assert(buf.subrange(pos, pos + 17)[1] == ascii_of(
                    "\"SplitHorizontal\""@,
                )[1]);
                assert(buf[pos + 1] == 'S' as u8);
                assert(enc_cmd(c)[1] == 'C' as u8);
                assert(false);
            }
            if bytes_at(buf, pos, ascii_of("\"SplitVertical\""@)) {
                assert(buf.subrange(pos, pos + 15)[1] == ascii_of(
                    "\"SplitVertical\""@,
                )[1]);
                assert(buf[pos + 1] == 'S' as u8);
                assert(enc_cmd(c)[1] == 'C' as u8);
                assert(false);
            }
            if bytes_at(buf, pos, ascii_of("\"ClosePane\""@)) {
                assert(buf.subrange(pos, pos + 11)[6] == ascii_of(
                    "\"ClosePane\""@,
                )[6]);
                assert(buf[pos + 6] == 'P' as u8);
                assert(enc_cmd(c)[6] == 'W' as u8);
                assert(false);
            }
            if bytes_at(buf, pos, ascii_of("\"NextPane\""@)) {
                assert(buf.subrange(pos, pos + 10)[1] == ascii_of(
                    "\"NextPane\""@,
                )[1]);
                assert(buf[pos + 1] == 'N' as u8);
                assert(enc_cmd(c)[1] == 'C' as u8);
                assert(false);
            }
            if bytes_at(buf, pos, ascii_of("\"PrevPane\""@)) {
                assert(buf.subrange(pos, pos + 10)[1] == ascii_of(
                    "\"PrevPane\""@,
                )[1]);
                assert(buf[pos + 1] == 'P' as u8);
                assert(enc_cmd(c)[1] == 'C' as u8);
                assert(false);
            }
            if bytes_at(buf, pos, ascii_of("\"NewWindow\""@)) {
                assert(buf.subrange(pos, pos + 11)[1] == ascii_of(
                    "\"NewWindow\""@,
                )[1]);
                assert(buf[pos + 1] == 'N' as u8);
                assert(enc_cmd(c)[1] == 'C' as u8);
                assert(false);
            }
        },
        MuxCommand::NextWindow => {
            assert(enc_cmd(c) == ascii_of("\"NextWindow\""@));
            assert(buf.subrange(pos, pos + 12) =~= ascii_of("\"NextWindow\""@));
            if bytes_at(buf, pos, ascii_of("\"SplitHorizontal\""@)) {
                assert(buf.subrange(pos, pos + 17)[1] == ascii_of(
                    "\"SplitHorizontal\""@,
                )[1]);
                assert(buf[pos + 1] == 'S' as u8);
                assert(enc_cmd(c)[1] == 'N' as u8);
                assert(false);
            }
            if bytes_at(buf, pos, ascii_of("\"SplitVertical\""@)) {
                assert(buf.subrange(pos, pos + 15)[1] == ascii_of(
                    "\"SplitVertical\""@,
                )[1]);
                assert(buf[pos + 1] == 'S' as u8);
                assert(enc_cmd(c)[1] == 'N' as u8);
                assert(false);
            }
            if bytes_at(buf, pos, ascii_of("\"ClosePane\""@)) {
                assert(buf.subrange(pos, pos + 11)[1] == ascii_of(
                    "\"ClosePane\""@,
                )[1]);
                assert(buf[pos + 1] == 'C' as u8);
                assert(enc_cmd(c)[1] == 'N' as u8);
                assert(false);
            }
            if bytes_at(buf, pos, ascii_of("\"NextPane\""@)) {
                assert(buf.subrange(pos, pos + 10)[5] == ascii_of(
                    "\"NextPane\""@,
                )[5]);
                assert(buf[pos + 5] == 'P' as u8);
                assert(enc_cmd(c)[5] == 'W' as u8);
                assert(false);
            }
            if bytes_at(buf, pos, ascii_of("\"PrevPane\""@)) {
                assert(buf.subrange(pos, pos + 10)[1] == ascii_of(
                    "\"PrevPane\""@,
                )[1]);
                assert(buf[pos + 1] == 'P' as u8);
                assert(enc_cmd(c)[1] == 'N' as u8);
                assert(false);
            }
            if bytes_at(buf, pos, ascii_of("\"NewWindow\""@)) {
                assert(buf.subrange(pos, pos + 11)[3] == ascii_of(
                    "\"NewWindow\""@,
                )[3]);
                assert(buf[pos + 3] == 'w' as u8);
                assert(enc_cmd(c)[3] == 'x' as u8);
                assert(false);
            }
            if bytes_at(buf, pos, ascii_of("\"CloseWindow\""@)) {
                assert(buf.subrange(pos, pos + 13)[1] == ascii_of(
                    "\"CloseWindow\""@,
                )[1]);
                assert(buf[pos + 1] == 'C' as u8);
                assert(enc_cmd(c)[1] == 'N' as u8);
                assert(false);
            }
        },
        MuxCommand::PrevWindow => {
            assert(enc_cmd(c) == ascii_of("\"PrevWindow\""@));
            assert(buf.subrange(pos, pos + 12) =~= ascii_of("\"PrevWindow\""@));
            if bytes_at(buf, pos, ascii_of("\"SplitHorizontal\""@)) {
                assert(buf.subrange(pos, pos + 17)[1] == ascii_of(
                    "\"SplitHorizontal\""@,
                )[1]);
                assert(buf[pos + 1] == 'S' as u8);
                assert(enc_cmd(c)[1] == 'P' as u8);
                assert(false);
            }
            if bytes_at(buf, pos, ascii_of("\"SplitVertical\""@)) {
                assert(buf.subrange(pos, pos + 15)[1] == ascii_of(
                    "\"SplitVertical\""@,
                )[1]);
                assert(buf[pos + 1] == 'S' as u8);
                assert(enc_cmd(c)[1] == 'P' as u8);
                assert(false);
            }
            if bytes_at(buf, pos, ascii_of("\"ClosePane\""@)) {
                assert(buf.subrange(pos, pos + 11)[1] == ascii_of(
                    "\"ClosePane\""@,
                )[1]);
                assert(buf[pos + 1] == 'C' as u8);
                assert(enc_cmd(c)[1] == 'P' as u8);
                assert(false);
            }
            if bytes_at(buf, pos, ascii_of("\"NextPane\""@)) {
                assert(buf.subrange(pos, pos + 10)[1] == ascii_of(
                    "\"NextPane\""@,
                )[1]);
                assert(buf[pos + 1] == 'N' as u8);
                assert(enc_cmd(c)[1] == 'P' as u8);
                assert(false);
            }
            if bytes_at(buf, pos, ascii_of("\"PrevPane\""@)) {
                assert(buf.subrange(pos, pos + 10)[5] == ascii_of(
                    "\"PrevPane\""@,
                )[5]);
                assert(buf[pos + 5] == 'P' as u8);
                assert(enc_cmd(c)[5] == 'W' as u8);
                assert(false);
            }
            if bytes_at(buf, pos, ascii_of("\"NewWindow\""@)) {
                assert(buf.subrange(pos, pos + 11)[1] == ascii_of(
                    "\"NewWindow\""@,
                )[1]);
                assert(buf[pos + 1] == 'N' as u8);
                assert(enc_cmd(c)[1] == 'P' as u8);
                assert(false);
            }
            if bytes_at(buf, pos, ascii_of("\"CloseWindow\""@)) {
                assert(buf.subrange(pos, pos + 13)[1] == ascii_of(
                    "\"CloseWindow\""@,
                )[1]);
                assert(buf[pos + 1] == 'C' as u8);
                assert(enc_cmd(c)[1] == 'P' as u8);
                assert(false);
            }
            if bytes_at(buf, pos, ascii_of("\"NextWindow\""@)) {
                assert(buf.subrange(pos, pos + 12)[1] == ascii_of(
                    "\"NextWindow\""@,
                )[1]);
                assert(buf[pos + 1] == 'N' as u8);
                assert(enc_cmd(c)[1] == 'P' as u8);
                assert(false);
            }
        },
        MuxCommand::DetachSession => {
            assert(enc_cmd(c) == ascii_of("\"DetachSession\""@));
            assert(buf.subrange(pos, pos + 15) =~= ascii_of("\"DetachSession\""@));
            if bytes_at(buf, pos, ascii_of("\"SplitHorizontal\""@)) {
                assert(buf.subrange(pos, pos + 17)[1] == ascii_of(
                    "\"SplitHorizontal\""@,
                )[1]);
                assert(buf[pos + 1] == 'S' as u8);
                assert(enc_cmd(c)[1] == 'D' as u8);
                assert(false);
            }
            if bytes_at(buf, pos, ascii_of("\"SplitVertical\""@)) {
                assert(buf.subrange(pos, pos + 15)[1] == ascii_of(
                    "\"SplitVertical\""@,
                )[1]);
                assert(buf[pos + 1] == 'S' as u8);
                assert(enc_cmd(c)[1] == 'D' as u8);
                assert(false);
            }
            if bytes_at(buf, pos, ascii_of("\"ClosePane\""@)) {
                assert(buf.subrange(pos, pos + 11)[1] == ascii_of(
                    "\"ClosePane\""@,
                )[1]);
                assert(buf[pos + 1] == 'C' as u8);
                assert(enc_cmd(c)[1] == 'D' as u8);
                assert(false);
            }
            if bytes_at(buf, pos, ascii_of("\"NextPane\""@)) {
                assert(buf.subrange(pos, pos + 10)[1] == ascii_of(
                    "\"NextPane\""@,
                )[1]);
                assert(buf[pos + 1] == 'N' as u8);
                assert(enc_cmd(c)[1] == 'D' as u8);
                assert(false);
            }
            if bytes_at(buf, pos, ascii_of("\"PrevPane\""@)) {
                assert(buf.subrange(pos, pos + 10)[1] == ascii_of(
                    "\"PrevPane\""@,
                )[1]);
                assert(buf[pos + 1] == 'P' as u8);
                assert(enc_cmd(c)[1] == 'D' as u8);
                assert(false);
            }
            if bytes_at(buf, pos, ascii_of("\"NewWindow\""@)) {
                assert(buf.subrange(pos, pos + 11)[1] == ascii_of(
                    "\"NewWindow\""@,
                )[1]);
                assert(buf[pos + 1] == 'N' as u8);
                assert(enc_cmd(c)[1] == 'D' as u8);
                assert(false);
            }
            if bytes_at(buf, pos, ascii_of("\"CloseWindow\""@)) {
                assert(buf.subrange(pos, pos + 13)[1] == ascii_of(
                    "\"CloseWindow\""@,
                )[1]);
                assert(buf[pos + 1] == 'C' as u8);
                assert(enc_cmd(c)[1] == 'D' as u8);
                assert(false);
            }
            if bytes_at(buf, pos, ascii_of("\"NextWindow\""@)) {
                assert(buf.subrange(pos, pos + 12)[1] == ascii_of(
                    "\"NextWindow\""@,
                )[1]);
                assert(buf[pos + 1] == 'N' as u8);
                assert(enc_cmd(c)[1] == 'D' as u8);
                assert(false);
            }
            if bytes_at(buf, pos, ascii_of("\"PrevWindow\""@)) {
                assert(buf.subrange(pos, pos + 12)[1] == ascii_of(
                    "\"PrevWindow\""@,
                )[1]);
                assert(buf[pos + 1] == 'P' as u8);
                assert(enc_cmd(c)[1] == 'D' as u8);
                assert(false);
            }
        },
        MuxCommand::ToggleZoom => {
            assert(enc_cmd(c) == ascii_of("\"ToggleZoom\""@));
            assert(buf.subrange(pos, pos + 12) =~= ascii_of("\"ToggleZoom\""@));
            if bytes_at(buf, pos, ascii_of("\"SplitHorizontal\""@)) {
                assert(buf.subrange(pos, pos + 17)[1] == ascii_of(
                    "\"SplitHorizontal\""@,
                )[1]);
                assert(buf[pos + 1] == 'S' as u8);
                assert(enc_cmd(c)[1] == 'T' as u8);
                assert(false);
            }
            if bytes_at(buf, pos, ascii_of("\"SplitVertical\""@)) {
                assert(buf.subrange(pos, pos + 15)[1] == ascii_of(
                    "\"SplitVertical\""@,
                )[1]);
                assert(buf[pos + 1] == 'S' as u8);
                assert(enc_cmd(c)[1] == 'T' as u8);
                assert(false);
            }
            if bytes_at(buf, pos, ascii_of("\"ClosePane\""@)) {
                assert(buf.subrange(pos, pos + 11)[1] == ascii_of(
                    "\"ClosePane\""@,
                )[1]);
                assert(buf[pos + 1] == 'C' as u8);
                assert(enc_cmd(c)[1] == 'T' as u8);
                assert(false);
            }
            if bytes_at(buf, pos, ascii_of("\"NextPane\""@)) {
                assert(buf.subrange(pos, pos + 10)[1] == ascii_of(
                    "\"NextPane\""@,
                )[1]);
                assert(buf[pos + 1] == 'N' as u8);
                assert(enc_cmd(c)[1] == 'T' as u8);
                assert(false);
            }
            if bytes_at(buf, pos, ascii_of("\"PrevPane\""@)) {
                assert(buf.subrange(pos, pos + 10)[1] == ascii_of(
                    "\"PrevPane\""@,
                )[1]);
                assert(buf[pos + 1] == 'P' as u8);
                assert(enc_cmd(c)[1] == 'T' as u8);
                assert(false);
            }
            if bytes_at(buf, pos, ascii_of("\"NewWindow\""@)) {
                assert(buf.subrange(pos, pos + 11)[1] == ascii_of(
                    "\"NewWindow\""@,
                )[1]);
                assert(buf[pos + 1] == 'N' as u8);
                assert(enc_cmd(c)[1] == 'T' as u8);
                assert(false);
            }
            if bytes_at(buf, pos, ascii_of("\"CloseWindow\""@)) {
                assert(buf.subrange(pos, pos + 13)[1] == ascii_of(
                    "\"CloseWindow\""@,
                )[1]);
                assert(buf[pos + 1] == 'C' as u8);
                assert(enc_cmd(c)[1] == 'T' as u8);
                assert(false);
            }
            if bytes_at(buf, pos, ascii_of("\"NextWindow\""@)) {
                assert(buf.subrange(pos, pos + 12)[1] == ascii_of(
                    "\"NextWindow\""@,
                )[1]);
                assert(buf[pos + 1] == 'N' as u8);
                assert(enc_cmd(c)[1] == 'T' as u8);
                assert(false);
            }
            if bytes_at(buf, pos, ascii_of("\"PrevWindow\""@)) {
                assert(buf.subrange(pos, pos + 12)[1] == ascii_of(
                    "\"PrevWindow\""@,
                )[1]);
                assert(buf[pos + 1] == 'P' as u8);
                assert(enc_cmd(c)[1] == 'T' as u8);
                assert(false);
            }
            if bytes_at(buf, pos, ascii_of("\"DetachSession\""@)) {
                assert(buf.subrange(pos, pos + 15)[1] == ascii_of(
                    "\"DetachSession\""@,
                )[1]);
                assert(buf[pos + 1] == 'D' as u8);
                assert(enc_cmd(c)[1] == 'T' as u8);
                assert(false);
            }
        },
        MuxCommand::ScrollbackMode => {
            assert(enc_cmd(c) == ascii_of("\"ScrollbackMode\""@));
            assert(buf.subrange(pos, pos + 16) =~= ascii_of("\"ScrollbackMode\""@));
            if bytes_at(buf, pos, ascii_of("\"SplitHorizontal\""@)) {
                assert(buf.subrange(pos, pos + 17)[2] == ascii_of(
                    "\"SplitHorizontal\""@,
                )[2]);
                assert(buf[pos + 2] == 'p' as u8);
                assert(enc_cmd(c)[2] == 'c' as u8);
                assert(false);
            }
            if bytes_at(buf, pos, ascii_of("\"SplitVertical\""@)) {
                assert(buf.subrange(pos, pos + 15)[2] == ascii_of(
                    "\"SplitVertical\""@,
                )[2]);
                assert(buf[pos + 2] == 'p' as u8);
                assert(enc_cmd(c)[2] == 'c' as u8);
                assert(false);
            }
            if bytes_at(buf, pos, ascii_of("\"ClosePane\""@)) {
                assert(buf.subrange(pos, pos + 11)[1] == ascii_of(
                    "\"ClosePane\""@,
                )[1]);
                assert(buf[pos + 1] == 'C' as u8);
                assert(enc_cmd(c)[1] == 'S' as u8);
                assert(false);
            }
            if bytes_at(buf, pos, ascii_of("\"NextPane\""@)) {
                assert(buf.subrange(pos, pos + 10)[1] == ascii_of(
                    "\"NextPane\""@,
                )[1]);
                assert(buf[pos + 1] == 'N' as u8);
                assert(enc_cmd(c)[1] == 'S' as u8);
                assert(false);
            }
            if bytes_at(buf, pos, ascii_of("\"PrevPane\""@)) {
                assert(buf.subrange(pos, pos + 10)[1] == ascii_of(
                    "\"PrevPane\""@,
                )[1]);
                assert(buf[pos + 1] == 'P' as u8);
                assert(enc_cmd(c)[1] == 'S' as u8);
                assert(false);
            }
            if bytes_at(buf, pos, ascii_of("\"NewWindow\""@)) {
                assert(buf.subrange(pos, pos + 11)[1] == ascii_of(
                    "\"NewWindow\""@,
                )[1]);
                assert(buf[pos + 1] == 'N' as u8);
                assert(enc_cmd(c)[1] == 'S' as u8);
                assert(false);
            }
            if bytes_at(buf, pos, ascii_of("\"CloseWindow\""@)) {
                assert(buf.subrange(pos, pos + 13)[1] == ascii_of(
                    "\"CloseWindow\""@,
                )[1]);
                assert(buf[pos + 1] == 'C' as u8);
                assert(enc_cmd(c)[1] == 'S' as u8);
                assert(false);
            }
            if bytes_at(buf, pos, ascii_of("\"NextWindow\""@)) {
                assert(buf.subrange(pos, pos + 12)[1] == ascii_of(
                    "\"NextWindow\""@,
                )[1]);
                assert(buf[pos + 1] == 'N' as u8);
                assert(enc_cmd(c)[1] == 'S' as u8);
                assert(false);
            }
            if bytes_at(buf, pos, ascii_of("\"PrevWindow\""@)) {
                assert(buf.subrange(pos, pos + 12)[1] == ascii_of(
                    "\"PrevWindow\""@,
                )[1]);
                assert(buf[pos + 1] == 'P' as u8);
                assert(enc_cmd(c)[1] == 'S' as u8);
                assert(false);
            }
            if bytes_at(buf, pos, ascii_of("\"DetachSession\""@)) {
                assert(buf.subrange(pos, pos + 15)[1] == ascii_of(
                    "\"DetachSession\""@,
                )[1]);
                assert(buf[pos + 1] == 'D' as u8);
                assert(enc_cmd(c)[1] == 'S' as u8);
                assert(false);
            }
            if bytes_at(buf, pos, ascii_of("\"ToggleZoom\""@)) {
                assert(buf.subrange(pos, pos + 12)[1] == ascii_of(
                    "\"ToggleZoom\""@,
                )[1]);
                assert(buf[pos + 1] == 'T' as u8);
                assert(enc_cmd(c)[1] == 'S' as u8);
                assert(false);
            }
        },
        MuxCommand::NavigatePane(d) => {
            assert(enc_cmd(c) == ascii_of("{\"NavigatePane\":"@) + enc_direction(d)
                + ascii_of("}"@));
            assert(buf.subrange(pos, pos + 16) =~= ascii_of("{\"NavigatePane\":"@));
            if bytes_at(buf, pos, ascii_of("\"SplitHorizontal\""@)) {
                assert(buf.subrange(pos, pos + 17)[0] == ascii_of(
                    "\"SplitHorizontal\""@,
                )[0]);
                assert(buf[pos] == '\"' as u8);
                assert(enc_cmd(c)[0] == '{' as u8);
                assert(false);
            }
            if bytes_at(buf, pos, ascii_of("\"SplitVertical\""@)) {
                assert(buf.subrange(pos, pos + 15)[0] == ascii_of(
                    "\"SplitVertical\""@,
                )[0]);
                assert(buf[pos] == '\"' as u8);
                assert(enc_cmd(c)[0] == '{' as u8);
                assert(false);
            }
            if bytes_at(buf, pos, ascii_of("\"ClosePane\""@)) {
                assert(buf.subrange(pos, pos + 11)[0] == ascii_of(
                    "\"ClosePane\""@,
                )[0]);
                assert(buf[pos] == '\"' as u8);
                assert(enc_cmd(c)[0] == '{' as u8);
                assert(false);
            }
            if bytes_at(buf, pos, ascii_of("\"NextPane\""@)) {
                assert(buf.subrange(pos, pos + 10)[0] == ascii_of(
                    "\"NextPane\""@,
                )[0]);
                assert(buf[pos] == '\"' as u8);
                assert(enc_cmd(c)[0] == '{' as u8);
                assert(false);
            }
            if bytes_at(buf, pos, ascii_of("\"PrevPane\""@)) {
                assert(buf.subrange(pos, pos + 10)[0] == ascii_of(
                    "\"PrevPane\""@,
                )[0]);
                assert(buf[pos] == '\"' as u8);
                assert(enc_cmd(c)[0] == '{' as u8);
                assert(false);
            }
            if bytes_at(buf, pos, ascii_of("\"NewWindow\""@)) {
                assert(buf.subrange(pos, pos + 11)[0] == ascii_of(
                    "\"NewWindow\""@,
                )[0]);
                assert(buf[pos] == '\"' as u8);
                assert(enc_cmd(c)[0] == '{' as u8);
                assert(false);
            }
            if bytes_at(buf, pos, ascii_of("\"CloseWindow\""@)) {
                assert(buf.subrange(pos, pos + 13)[0] == ascii_of(
                    "\"CloseWindow\""@,
                )[0]);
                assert(buf[pos] == '\"' as u8);
                assert(enc_cmd(c)[0] == '{' as u8);
                assert(false);
            }
            if bytes_at(buf, pos, ascii_of("\"NextWindow\""@)) {
                assert(buf.subrange(pos, pos + 12)[0] == ascii_of(
                    "\"NextWindow\""@,
                )[0]);
                assert(buf[pos] == '\"' as u8);
                assert(enc_cmd(c)[0] == '{' as u8);
                assert(false);
            }
            if bytes_at(buf, pos, ascii_of("\"PrevWindow\""@)) {
                assert(buf.subrange(pos, pos + 12)[0] == ascii_of(
                    "\"PrevWindow\""@,
                )[0]);
                assert(buf[pos] == '\"' as u8);
                assert(enc_cmd(c)[0] == '{' as u8);
                assert(false);
            }
            if bytes_at(buf, pos, ascii_of("\"DetachSession\""@)) {
                assert(buf.subrange(pos, pos + 15)[0] == ascii_of(
                    "\"DetachSession\""@,
                )[0]);
                assert(buf[pos] == '\"' as u8);
                assert(enc_cmd(c)[0] == '{' as u8);
                assert(false);
            }
            if bytes_at(buf, pos, ascii_of("\"ToggleZoom\""@)) {
                assert(buf.subrange(pos, pos + 12)[0] == ascii_of(
                    "\"ToggleZoom\""@,
                )[0]);
                assert(buf[pos] == '\"' as u8);
                assert(enc_cmd(c)[0] == '{' as u8);
                assert(false);
            }
            if bytes_at(buf, pos, ascii_of("\"ScrollbackMode\""@)) {
                assert(buf.subrange(pos, pos + 16)[0] == ascii_of(
                    "\"ScrollbackMode\""@,
                )[0]);
                assert(buf[pos] == '\"' as u8);
                assert(enc_cmd(c)[0] == '{' as u8);
                assert(false);
            }
            if d == Direction::Horizontal {
                assert(enc_direction(d) == ascii_of("\"Horizontal\""@));
                assert(enc_cmd(c).len() == 29);
                assert forall|j: int|
                    0 <= j < 12 implies buf.subrange(pos + 16, pos + 28)[j] == ascii_of(
                    "\"Horizontal\""@,
                )[j] by {
                    assert(buf[pos + 16 + j] == enc_cmd(c)[16 + j]);
                    assert(enc_cmd(c)[16 + j] == enc_direction(d)[j]);
                }
                assert(buf.subrange(pos + 16, pos + 28) =~= ascii_of("\"Horizontal\""@));
                assert(buf[pos + 28] == enc_cmd(c)[28]);
                assert(enc_cmd(c)[28] == ascii_of("}"@)[0]);
                assert(buf.subrange(pos + 28, pos + 29) =~= ascii_of("}"@));
            } else {
                assert(enc_direction(d) == ascii_of("\"Vertical\""@));
                assert(enc_cmd(c).len() == 27);
                assert forall|j: int|
                    0 <= j < 10 implies buf.subrange(pos + 16, pos + 26)[j] == ascii_of(
                    "\"Vertical\""@,
                )[j] by {
                    assert(buf[pos + 16 + j] == enc_cmd(c)[16 + j]);
                    assert(enc_cmd(c)[16 + j] == enc_direction(d)[j]);
                }
                assert(buf.subrange(pos + 16, pos + 26) =~= ascii_of("\"Vertical\""@));
                assert(buf[pos + 26] == enc_cmd(c)[26]);
                assert(enc_cmd(c)[26] == ascii_of("}"@)[0]);
                assert(buf.subrange(pos + 26, pos + 27) =~= ascii_of("}"@));
                if bytes_at(buf, pos + 16, ascii_of("\"Horizontal\""@)) {
                    assert(buf.subrange(pos + 16, pos + 28)[1] == ascii_of(
                        "\"Horizontal\""@,
                    )[1]);
                    assert(buf[pos + 17] == 'H' as u8);
                    assert(enc_cmd(c)[17] == 'V' as u8);
                    assert(false);
                }
            }
        },
        _ => {},
    }
}

/// The buffer layout that the encoding of a window-switching
/// command forces at `pos`.
proof fn lemma_cmd_switch_layout(buf: Seq<u8>, pos: int, k: u8, rest: Seq<u8>)
    requires
        0 <= pos <= buf.len(),
        buf.skip(pos) == enc_cmd(MuxCommand::SwitchToWindow(k)) + rest,
    ensures
        !bytes_at(buf, pos, ascii_of("\"SplitHorizontal\""@)),
        !bytes_at(buf, pos, ascii_of("\"SplitVertical\""@)),
        !bytes_at(buf, pos, ascii_of("\"ClosePane\""@)),
        !bytes_at(buf, pos, ascii_of("\"NextPane\""@)),
        !bytes_at(buf, pos, ascii_of("\"PrevPane\""@)),
        !bytes_at(buf, pos, ascii_of("\"NewWindow\""@)),
        !bytes_at(buf, pos, ascii_of("\"CloseWindow\""@)),
        !bytes_at(buf, pos, ascii_of("\"NextWindow\""@)),
        !bytes_at(buf, pos, ascii_of("\"PrevWindow\""@)),
        !bytes_at(buf, pos, ascii_of("\"DetachSession\""@)),
        !bytes_at(buf, pos, ascii_of("\"ToggleZoom\""@)),
        !bytes_at(buf, pos, ascii_of("\"ScrollbackMode\""@)),
        !bytes_at(buf, pos, ascii_of("{\"NavigatePane\":"@)),
        bytes_at(buf, pos, ascii_of("{\"SwitchToWindow\":"@)),
        buf.skip(pos + 18) == enc_nat(k as nat) + (ascii_of("}"@) + rest),
        bytes_at(buf, pos + 18 + enc_nat(k as nat).len(), ascii_of("}"@)),
        enc_cmd(MuxCommand::SwitchToWindow(k)).len() == 19 + enc_nat(k as nat).len(),
        pos + enc_cmd(MuxCommand::SwitchToWindow(k)).len() <= buf.len(),
{
    reveal_strlit("\"SplitHorizontal\"");
    reveal_strlit("\"SplitVertical\"");
    reveal_strlit("\"ClosePane\"");
    reveal_strlit("\"NextPane\"");
    reveal_strlit("\"PrevPane\"");
    reveal_strlit("\"NewWindow\"");
    reveal_strlit("\"CloseWindow\"");
    reveal_strlit("\"NextWindow\"");
    reveal_strlit("\"PrevWindow\"");
    reveal_strlit("\"DetachSession\"");
    reveal_strlit("\"ToggleZoom\"");
    reveal_strlit("\"ScrollbackMode\"");
    reveal_strlit("{\"SwitchToWindow\":");
    reveal_strlit("{\"NavigatePane\":");
    reveal_strlit("}");
    let me = enc_cmd(MuxCommand::SwitchToWindow(k));
    let ecl = enc_nat(k as nat).len() as int;
    assert(me == ascii_of("{\"SwitchToWindow\":"@) + enc_nat(k as nat) + ascii_of(
        "}"@,
    ));
    assert(ascii_of("{\"SwitchToWindow\":"@).len() == 18);
    assert(me.len() == 19 + ecl);
    assert(buf.skip(pos).len() == buf.len() - pos);
    assert forall|i: int| 0 <= i < me.len() implies buf[pos + i] == me[i] by {
        assert(buf.skip(pos)[i] == buf[pos + i]);
        assert(buf.skip(pos)[i] == (me + rest)[i]);
    }
    if bytes_at(buf, pos, ascii_of("\"SplitHorizontal\""@)) {
        assert(buf.subrange(pos, pos + 17)[0] == ascii_of("\"SplitHorizontal\""@)[0]);
        assert(buf[pos] == '\"' as u8);
        assert(me[0] == '{' as u8);
        assert(false);
    }
    if bytes_at(buf, pos, ascii_of("\"SplitVertical\""@)) {
        assert(buf.subrange(pos, pos + 15)[0] == ascii_of("\"SplitVertical\""@)[0]);
        assert(buf[pos] == '\"' as u8);
        assert(me[0] == '{' as u8);
        assert(false);
    }
    if bytes_at(buf, pos, ascii_of("\"ClosePane\""@)) {
        assert(buf.subrange(pos, pos + 11)[0] == ascii_of("\"ClosePane\""@)[0]);
        assert(buf[pos] == '\"' as u8);
        assert(me[0] == '{' as u8);
        assert(false);
    }
    if bytes_at(buf, pos, ascii_of("\"NextPane\""@)) {
        assert(buf.subrange(pos, pos + 10)[0] == ascii_of("\"NextPane\""@)[0]);
        assert(buf[pos] == '\"' as u8);
        assert(me[0] == '{' as u8);
        assert(false);
    }
    if bytes_at(buf, pos, ascii_of("\"PrevPane\""@)) {
        assert(buf.subrange(pos, pos + 10)[0] == ascii_of("\"PrevPane\""@)[0]);
        assert(buf[pos] == '\"' as u8);
        assert(me[0] == '{' as u8);
        assert(false);
    }
    if bytes_at(buf, pos, ascii_of("\"NewWindow\""@)) {
        assert(buf.subrange(pos, pos + 11)[0] == ascii_of("\"NewWindow\""@)[0]);
        assert(buf[pos] == '\"' as u8);
        assert(me[0] == '{' as u8);
        assert(false);
    }
    if bytes_at(buf, pos, ascii_of("\"CloseWindow\""@)) {
        assert(buf.subrange(pos, pos + 13)[0] == ascii_of("\"CloseWindow\""@)[0]);
        assert(buf[pos] == '\"' as u8);
        assert(me[0] == '{' as u8);
        assert(false);
    }
    if bytes_at(buf, pos, ascii_of("\"NextWindow\""@)) {
        assert(buf.subrange(pos, pos + 12)[0] == ascii_of("\"NextWindow\""@)[0]);
        assert(buf[pos] == '\"' as u8);
        assert(me[0] == '{' as u8);
        assert(false);
    }
    if bytes_at(buf, pos, ascii_of("\"PrevWindow\""@)) {
        assert(buf.subrange(pos, pos + 12)[0] == ascii_of("\"PrevWindow\""@)[0]);
        assert(buf[pos] == '\"' as u8);
        assert(me[0] == '{' as u8);
        assert(false);
    }
    if bytes_at(buf, pos, ascii_of("\"DetachSession\""@)) {
        assert(buf.subrange(pos, pos + 15)[0] == ascii_of("\"DetachSession\""@)[0]);
        assert(buf[pos] == '\"' as u8);
        assert(me[0] == '{' as u8);
        assert(false);
    }
    if bytes_at(buf, pos, ascii_of("\"ToggleZoom\""@)) {
        assert(buf.subrange(pos, pos + 12)[0] == ascii_of("\"ToggleZoom\""@)[0]);
        assert(buf[pos] == '\"' as u8);
        assert(me[0] == '{' as u8);
        assert(false);
    }
    if bytes_at(buf, pos, ascii_of("\"ScrollbackMode\""@)) {
        assert(buf.subrange(pos, pos + 16)[0] == ascii_of("\"ScrollbackMode\""@)[0]);
        assert(buf[pos] == '\"' as u8);
        assert(me[0] == '{' as u8);
        assert(false);
    }
    if bytes_at(buf, pos, ascii_of("{\"NavigatePane\":"@)) {
        assert(buf.subrange(pos, pos + 16)[2] == ascii_of("{\"NavigatePane\":"@)[2]);
        assert(buf[pos + 2] == 'N' as u8);
        assert(me[2] == 'S' as u8);
        assert(false);
    }
    assert forall|j: int| 0 <= j < 18 implies buf.subrange(pos, pos + 18)[j] == ascii_of(
        "{\"SwitchToWindow\":"@,
    )[j] by {
        assert(buf[pos + j] == me[j]);
        assert(me[j] == ascii_of("{\"SwitchToWindow\":"@)[j]);
    }
    assert(buf.subrange(pos, pos + 18) =~= ascii_of("{\"SwitchToWindow\":"@));
    assert forall|i: int| 0 <= i < buf.len() - pos - 18 implies buf.skip(pos + 18)[i] == (
    enc_nat(k as nat) + (ascii_of("}"@) + rest))[i] by {
        assert(buf.skip(pos + 18)[i] == buf[pos + 18 + i]);
        assert(buf.skip(pos)[18 + i] == buf[pos + 18 + i]);
        assert(buf.skip(pos)[18 + i] == (me + rest)[18 + i]);
        if i < ecl {
            assert((me + rest)[18 + i] == me[18 + i]);
            assert(me[18 + i] == enc_nat(k as nat)[i]);
            assert((enc_nat(k as nat) + (ascii_of("}"@) + rest))[i] == enc_nat(
                k as nat,
            )[i]);
        } else if i == ecl {
            assert((me + rest)[18 + i] == me[18 + i]);
            assert(me[18 + ecl] == ascii_of("}"@)[0]);
            assert((enc_nat(k as nat) + (ascii_of("}"@) + rest))[i] == ascii_of(
                "}"@,
            )[0]);
        } else {
            assert((me + rest)[18 + i] == rest[18 + i - me.len()]);
            assert((enc_nat(k as nat) + (ascii_of("}"@) + rest))[i] == rest[i - ecl
                - 1]);
        }
    }
    assert(buf.skip(pos + 18) =~= enc_nat(k as nat) + (ascii_of("}"@) + rest));
    assert(buf[pos + 18 + ecl] == me[18 + ecl]);
    assert(me[18 + ecl] == ascii_of("}"@)[0]);
    assert(buf.subrange(pos + 18 + ecl, pos + 19 + ecl) =~= ascii_of("}"@));
}

/// The buffer layout that the encoding of a resize command forces
/// at `pos`.
proof fn lemma_cmd_resizepane_layout(
    buf: Seq<u8>,
    pos: int,
    d: Direction,
    delta: i16,
    rest: Seq<u8>,
)
    requires
        0 <= pos <= buf.len(),
        buf.skip(pos) == enc_cmd(MuxCommand::ResizePane(d, delta)) + rest,
    ensures
        !bytes_at(buf, pos, ascii_of("\"SplitHorizontal\""@)),
        !bytes_at(buf, pos, ascii_of("\"SplitVertical\""@)),
        !bytes_at(buf, pos, ascii_of("\"ClosePane\""@)),
        !bytes_at(buf, pos, ascii_of("\"NextPane\""@)),
        !bytes_at(buf, pos, ascii_of("\"PrevPane\""@)),
        !bytes_at(buf, pos, ascii_of("\"NewWindow\""@)),
        !bytes_at(buf, pos, ascii_of("\"CloseWindow\""@)),
        !bytes_at(buf, pos, ascii_of("\"NextWindow\""@)),
        !bytes_at(buf, pos, ascii_of("\"PrevWindow\""@)),
        !bytes_at(buf, pos, ascii_of("\"DetachSession\""@)),
        !bytes_at(buf, pos, ascii_of("\"ToggleZoom\""@)),
        !bytes_at(buf, pos, ascii_of("\"ScrollbackMode\""@)),
        !bytes_at(buf, pos, ascii_of("{\"NavigatePane\":"@)),
        !bytes_at(buf, pos, ascii_of("{\"SwitchToWindow\":"@)),
        !bytes_at(buf, pos, ascii_of("{\"RenameWindow\":"@)),
        bytes_at(buf, pos, ascii_of("{\"ResizePane\":["@)),
        d == Direction::Horizontal ==> bytes_at(buf, pos + 15, ascii_of(
            "\"Horizontal\""@,
        )) && bytes_at(buf, pos + 27, ascii_of(","@)) && buf.skip(pos + 28)
            == enc_int(delta as int) + (ascii_of("]}"@) + rest) && bytes_at(
            buf,
            pos + 28 + enc_int(delta as int).len(),
            ascii_of("]}"@),
        ) && enc_cmd(MuxCommand::ResizePane(d, delta)).len() == 30 + enc_int(
            delta as int,
        ).len(),
        d == Direction::Vertical ==> !bytes_at(buf, pos + 15, ascii_of(
            "\"Horizontal\""@,
        )) && bytes_at(buf, pos + 15, ascii_of("\"Vertical\""@)) && bytes_at(
            buf,
            pos + 25,
            ascii_of(","@),
        ) && buf.skip(pos + 26) == enc_int(delta as int) + (ascii_of("]}"@) + rest)
            && bytes_at(buf, pos + 26 + enc_int(delta as int).len(), ascii_of("]}"@))
            && enc_cmd(MuxCommand::ResizePane(d, delta)).len() == 28 + enc_int(
            delta as int,
        ).len(),
        pos + enc_cmd(MuxCommand::ResizePane(d, delta)).len() <= buf.len(),
{
    reveal_strlit("\"SplitHorizontal\"");
    reveal_strlit("\"SplitVertical\"");
    reveal_strlit("\"ClosePane\"");
    reveal_strlit("\"NextPane\"");
    reveal_strlit("\"PrevPane\"");
    reveal_strlit("\"NewWindow\"");
    reveal_strlit("\"CloseWindow\"");
    reveal_strlit("\"NextWindow\"");
    reveal_strlit("\"PrevWindow\"");
    reveal_strlit("\"DetachSession\"");
    reveal_strlit("\"ToggleZoom\"");
    reveal_strlit("\"ScrollbackMode\"");
    reveal_strlit("{\"ResizePane\":[");
    reveal_strlit("{\"NavigatePane\":");
    reveal_strlit("{\"SwitchToWindow\":");
    reveal_strlit("{\"RenameWindow\":");
    reveal_strlit("\"Horizontal\"");
    reveal_strlit("\"Vertical\"");
    reveal_strlit(",");
    reveal_strlit("]}");
    let me = enc_cmd(MuxCommand::ResizePane(d, delta));
    let il = enc_int(delta as int).len() as int;
    assert(me == ascii_of("{\"ResizePane\":["@) + enc_direction(d) + ascii_of(","@)
        + enc_int(delta as int) + ascii_of("]}"@));
    assert(ascii_of("{\"ResizePane\":["@).len() == 15);
    let dl: int = if d == Direction::Horizontal { 12 } else { 10 };
    if d == Direction::Horizontal {
        assert(enc_direction(d) == ascii_of("\"Horizontal\""@));
    } else {
        assert(enc_direction(d) == ascii_of("\"Vertical\""@));
    }
    assert(me.len() == 18 + dl + il);
    assert(buf.skip(pos).len() == buf.len() - pos);
    assert forall|i: int| 0 <= i < me.len() implies buf[pos + i] == me[i] by {
        assert(buf.skip(pos)[i] == buf[pos + i]);
        assert(buf.skip(pos)[i] == (me + rest)[i]);
    }
    if bytes_at(buf, pos, ascii_of("\"SplitHorizontal\""@)) {
        assert(buf.subrange(pos, pos + 17)[0] == ascii_of("\"SplitHorizontal\""@)[0]);
        assert(buf[pos] == '\"' as u8);
        assert(me[0] == '{' as u8);
        assert(false);
    }
    if bytes_at(buf, pos, ascii_of("\"SplitVertical\""@)) {
        assert(buf.subrange(pos, pos + 15)[0] == ascii_of("\"SplitVertical\""@)[0]);
        assert(buf[pos] == '\"' as u8);
        assert(me[0] == '{' as u8);
        assert(false);
    }
    if bytes_at(buf, pos, ascii_of("\"ClosePane\""@)) {
        assert(buf.subrange(pos, pos + 11)[0] == ascii_of("\"ClosePane\""@)[0]);
        assert(buf[pos] == '\"' as u8);
        assert(me[0] == '{' as u8);
        assert(false);
    }
    if bytes_at(buf, pos, ascii_of("\"NextPane\""@)) {
        assert(buf.subrange(pos, pos + 10)[0] == ascii_of("\"NextPane\""@)[0]);
        assert(buf[pos] == '\"' as u8);
        assert(me[0] == '{' as u8);
        assert(false);
    }
    if bytes_at(buf, pos, ascii_of("\"PrevPane\""@)) {
        assert(buf.subrange(pos, pos + 10)[0] == ascii_of("\"PrevPane\""@)[0]);
        assert(buf[pos] == '\"' as u8);
        assert(me[0] == '{' as u8);
        assert(false);
    }
    if bytes_at(buf, pos, ascii_of("\"NewWindow\""@)) {
        assert(buf.subrange(pos, pos + 11)[0] == ascii_of("\"NewWindow\""@)[0]);
        assert(buf[pos] == '\"' as u8);
        assert(me[0] == '{' as u8);
        assert(false);
    }
    if bytes_at(buf, pos, ascii_of("\"CloseWindow\""@)) {
        assert(buf.subrange(pos, pos + 13)[0] == ascii_of("\"CloseWindow\""@)[0]);
        assert(buf[pos] == '\"' as u8);
        assert(me[0] == '{' as u8);
        assert(false);
    }
    if bytes_at(buf, pos, ascii_of("\"NextWindow\""@)) {
        assert(buf.subrange(pos, pos + 12)[0] == ascii_of("\"NextWindow\""@)[0]);
        assert(buf[pos] == '\"' as u8);
        assert(me[0] == '{' as u8);
        assert(false);
    }
    if bytes_at(buf, pos, ascii_of("\"PrevWindow\""@)) {
        assert(buf.subrange(pos, pos + 12)[0] == ascii_of("\"PrevWindow\""@)[0]);
        assert(buf[pos] == '\"' as u8);
        assert(me[0] == '{' as u8);
        assert(false);
    }
    if bytes_at(buf, pos, ascii_of("\"DetachSession\""@)) {
        assert(buf.subrange(pos, pos + 15)[0] == ascii_of("\"DetachSession\""@)[0]);
        assert(buf[pos] == '\"' as u8);
        assert(me[0] == '{' as u8);
        assert(false);
    }
    if bytes_at(buf, pos, ascii_of("\"ToggleZoom\""@)) {
        assert(buf.subrange(pos, pos + 12)[0] == ascii_of("\"ToggleZoom\""@)[0]);
        assert(buf[pos] == '\"' as u8);
        assert(me[0] == '{' as u8);
        assert(false);
    }
    if bytes_at(buf, pos, ascii_of("\"ScrollbackMode\""@)) {
        assert(buf.subrange(pos, pos + 16)[0] == ascii_of("\"ScrollbackMode\""@)[0]);
        assert(buf[pos] == '\"' as u8);
        assert(me[0] == '{' as u8);
        assert(false);
    }
    if bytes_at(buf, pos, ascii_of("{\"NavigatePane\":"@)) {
        assert(buf.subrange(pos, pos + 16)[2] == ascii_of("{\"NavigatePane\":"@)[2]);
        assert(buf[pos + 2] == 'N' as u8);
        assert(me[2] == 'R' as u8);
        assert(false);
    }
    if bytes_at(buf, pos, ascii_of("{\"SwitchToWindow\":"@)) {
        assert(buf.subrange(pos, pos + 18)[2] == ascii_of("{\"SwitchToWindow\":"@)[2]);
        assert(buf[pos + 2] == 'S' as u8);
        assert(me[2] == 'R' as u8);
        assert(false);
    }
    if bytes_at(buf, pos, ascii_of("{\"RenameWindow\":"@)) {
        assert(buf.subrange(pos, pos + 16)[4] == ascii_of("{\"RenameWindow\":"@)[4]);
        assert(buf[pos + 4] == 'n' as u8);
        assert(me[4] == 's' as u8);
        assert(false);
    }
    assert forall|j: int| 0 <= j < 15 implies buf.subrange(pos, pos + 15)[j] == ascii_of(
        "{\"ResizePane\":["@,
    )[j] by {
        assert(buf[pos + j] == me[j]);
        assert(me[j] == ascii_of("{\"ResizePane\":["@)[j]);
    }
    assert(buf.subrange(pos, pos + 15) =~= ascii_of("{\"ResizePane\":["@));
    assert forall|j: int| 0 <= j < dl implies buf.subrange(pos + 15, pos + 15 + dl)[j]
        == enc_direction(d)[j] by {
        assert(buf[pos + 15 + j] == me[15 + j]);
        assert(me[15 + j] == enc_direction(d)[j]);
    }
    assert(buf.subrange(pos + 15, pos + 15 + dl) =~= enc_direction(d));
    if d == Direction::Vertical {
        if bytes_at(buf, pos + 15, ascii_of("\"Horizontal\""@)) {
            assert(buf.subrange(pos + 15, pos + 27)[1] == ascii_of(
                "\"Horizontal\""@,
            )[1]);
            assert(buf[pos + 16] == 'H' as u8);
            assert(me[16] == 'V' as u8);
            assert(false);
        }
    }
    assert(buf[pos + 15 + dl] == me[15 + dl]);
    assert(me[15 + dl] == ascii_of(","@)[0]);
    assert(buf.subrange(pos + 15 + dl, pos + 16 + dl) =~= ascii_of(","@));
    assert forall|i: int| 0 <= i < buf.len() - pos - 16 - dl implies buf.skip(
        pos + 16 + dl,
    )[i] == (enc_int(delta as int) + (ascii_of("]}"@) + rest))[i] by {
        assert(buf.skip(pos + 16 + dl)[i] == buf[pos + 16 + dl + i]);
        assert(buf.skip(pos)[16 + dl + i] == buf[pos + 16 + dl + i]);
        assert(buf.skip(pos)[16 + dl + i] == (me + rest)[16 + dl + i]);
        if 16 + dl + i < me.len() {
            assert((me + rest)[16 + dl + i] == me[16 + dl + i]);
        } else {
            assert((me + rest)[16 + dl + i] == rest[16 + dl + i - me.len()]);
        }
    }
    assert(buf.skip(pos + 16 + dl) =~= enc_int(delta as int) + (ascii_of("]}"@)
        + rest));
    assert(buf[pos + 16 + dl + il] == me[16 + dl + il]);
    assert(me[16 + dl + il] == ascii_of("]}"@)[0]);
    assert(buf[pos + 17 + dl + il] == me[17 + dl + il]);
    assert(me[17 + dl + il] == ascii_of("]}"@)[1]);
    assert(buf.subrange(pos + 16 + dl + il, pos + 18 + dl + il) =~= ascii_of("]}"@));
}

/// Parse a command at `pos`. A buffer that continues with the
/// encoding of any payload-free command always yields exactly that
/// command, consuming exactly its encoding.
fn parse_cmd(buf: &[u8], pos: usize) -> (r: Option<(MuxCommand, usize)>)
    requires
        pos <= buf@.len(),
    ensures
        r matches Some(p) ==> pos < p.1 <= buf@.len(),
        forall|c: MuxCommand, rest: Seq<u8>|
            plain_cmd(c) && buf@.skip(pos as int) == #[trigger] (enc_cmd(c) + rest) ==> (
            r matches Some(p) && p.0 == c && p.1 == pos + enc_cmd(c).len()),
        forall|k: u8, rest: Seq<u8>|
            buf@.skip(pos as int) == #[trigger] (enc_cmd(MuxCommand::SwitchToWindow(k)) + rest)
                ==> (r matches Some(p) && p.0 == (MuxCommand::SwitchToWindow(k)) && p.1 == pos
                + enc_cmd(MuxCommand::SwitchToWindow(k)).len()),
        forall|d: Direction, delta: i16, rest: Seq<u8>|
            buf@.skip(pos as int) == #[trigger] (enc_cmd(MuxCommand::ResizePane(d, delta))
                + rest) ==> (r matches Some(p) && p.0 == (MuxCommand::ResizePane(d, delta))
                && p.1 == pos + enc_cmd(MuxCommand::ResizePane(d, delta)).len()),
{
    let n = buf.len();
    proof {
        assert(n == buf@.len());
        reveal_strlit("\"SplitHorizontal\"");
        reveal_strlit("\"SplitVertical\"");
        reveal_strlit("\"ClosePane\"");
        reveal_strlit("\"NextPane\"");
        reveal_strlit("\"PrevPane\"");
        reveal_strlit("{\"NavigatePane\":");
        reveal_strlit("\"NewWindow\"");
        reveal_strlit("\"CloseWindow\"");
        reveal_strlit("\"NextWindow\"");
        reveal_strlit("\"PrevWindow\"");
        reveal_strlit("{\"SwitchToWindow\":");
        reveal_strlit("{\"RenameWindow\":");
        reveal_strlit("\"DetachSession\"");
        reveal_strlit("\"ToggleZoom\"");
        reveal_strlit("{\"ResizePane\":[");
        reveal_strlit("\"ScrollbackMode\"");
        reveal_strlit(",");
        reveal_strlit("}");
        reveal_strlit("]}");
        reveal_strlit("\"Horizontal\"");
        reveal_strlit("\"Vertical\"");
        lemma_token_bytes("\"SplitHorizontal\"");
        lemma_token_bytes("\"SplitVertical\"");
        lemma_token_bytes("\"ClosePane\"");
        lemma_token_bytes("\"NextPane\"");
        lemma_token_bytes("\"PrevPane\"");
        lemma_token_bytes("\"NewWindow\"");
        lemma_token_bytes("\"CloseWindow\"");
        lemma_token_bytes("\"NextWindow\"");
        lemma_token_bytes("\"PrevWindow\"");
        lemma_token_bytes("\"DetachSession\"");
        lemma_token_bytes("\"ToggleZoom\"");
        lemma_token_bytes("\"ScrollbackMode\"");
        lemma_token_bytes("{\"NavigatePane\":");
        lemma_token_bytes("}");
        assert forall|c: MuxCommand, rest: Seq<u8>|
            plain_cmd(c) && buf@.skip(pos as int) == #[trigger] (enc_cmd(c)
                + rest) implies cmd_token_layout(buf@, pos as int, c) && pos + enc_cmd(c).len()
            <= buf@.len() by {
            lemma_cmd_token_layout(buf@, pos as int, c, rest);
        }
        lemma_token_bytes("{\"SwitchToWindow\":");
        assert forall|k: u8, rest: Seq<u8>|
            buf@.skip(pos as int) == #[trigger] (enc_cmd(MuxCommand::SwitchToWindow(k))
                + rest) implies ({
            &&& !bytes_at(buf@, pos as int, ascii_of("\"SplitHorizontal\""@))
            &&& !bytes_at(buf@, pos as int, ascii_of("\"SplitVertical\""@))
            &&& !bytes_at(buf@, pos as int, ascii_of("\"ClosePane\""@))
            &&& !bytes_at(buf@, pos as int, ascii_of("\"NextPane\""@))
            &&& !bytes_at(buf@, pos as int, ascii_of("\"PrevPane\""@))
            &&& !bytes_at(buf@, pos as int, ascii_of("\"NewWindow\""@))
            &&& !bytes_at(buf@, pos as int, ascii_of("\"CloseWindow\""@))
            &&& !bytes_at(buf@, pos as int, ascii_of("\"NextWindow\""@))
            &&& !bytes_at(buf@, pos as int, ascii_of("\"PrevWindow\""@))
            &&& !bytes_at(buf@, pos as int, ascii_of("\"DetachSession\""@))
            &&& !bytes_at(buf@, pos as int, ascii_of("\"ToggleZoom\""@))
            &&& !bytes_at(buf@, pos as int, ascii_of("\"ScrollbackMode\""@))
            &&& !bytes_at(buf@, pos as int, ascii_of("{\"NavigatePane\":"@))
            &&& bytes_at(buf@, pos as int, ascii_of("{\"SwitchToWindow\":"@))
            &&& buf@.skip(pos as int + 18) == enc_nat(k as nat) + (ascii_of("}"@) + rest)
            &&& bytes_at(buf@, pos as int + 18 + enc_nat(k as nat).len(), ascii_of("}"@))
            &&& enc_cmd(MuxCommand::SwitchToWindow(k)).len() == 19 + enc_nat(k as nat).len()
            &&& pos + enc_cmd(MuxCommand::SwitchToWindow(k)).len() <= buf@.len()
        }) by {
            lemma_cmd_switch_layout(buf@, pos as int, k, rest);
        }
        lemma_token_bytes("{\"ResizePane\":[");
        lemma_token_bytes("{\"RenameWindow\":");
        lemma_token_bytes(",");
        lemma_token_bytes("]}");
        assert forall|d: Direction, delta: i16, rest: Seq<u8>|
            buf@.skip(pos as int) == #[trigger] (enc_cmd(MuxCommand::ResizePane(d, delta))
                + rest) implies ({
            &&& !bytes_at(buf@, pos as int, ascii_of("\"SplitHorizontal\""@))
            &&& !bytes_at(buf@, pos as int, ascii_of("\"SplitVertical\""@))
            &&& !bytes_at(buf@, pos as int, ascii_of("\"ClosePane\""@))
            &&& !bytes_at(buf@, pos as int, ascii_of("\"NextPane\""@))
            &&& !bytes_at(buf@, pos as int, ascii_of("\"PrevPane\""@))
            &&& !bytes_at(buf@, pos as int, ascii_of("\"NewWindow\""@))
            &&& !bytes_at(buf@, pos as int, ascii_of("\"CloseWindow\""@))
            &&& !bytes_at(buf@, pos as int, ascii_of("\"NextWindow\""@))
            &&& !bytes_at(buf@, pos as int, ascii_of("\"PrevWindow\""@))
            &&& !bytes_at(buf@, pos as int, ascii_of("\"DetachSession\""@))
            &&& !bytes_at(buf@, pos as int, ascii_of("\"ToggleZoom\""@))
            &&& !bytes_at(buf@, pos as int, ascii_of("\"ScrollbackMode\""@))
            &&& !bytes_at(buf@, pos as int, ascii_of("{\"NavigatePane\":"@))
            &&& !bytes_at(buf@, pos as int, ascii_of("{\"SwitchToWindow\":"@))
            &&& !bytes_at(buf@, pos as int, ascii_of("{\"RenameWindow\":"@))
            &&& bytes_at(buf@, pos as int, ascii_of("{\"ResizePane\":["@))
            &&& (d == Direction::Horizontal ==> bytes_at(
                buf@,
                pos as int + 15,
                ascii_of("\"Horizontal\""@),
            ) && bytes_at(buf@, pos as int + 27, ascii_of(","@)) && buf@.skip(pos as int + 28)
                == enc_int(delta as int) + (ascii_of("]}"@) + rest) && bytes_at(
                buf@,
                pos as int + 28 + enc_int(delta as int).len(),
                ascii_of("]}"@),
            ) && enc_cmd(MuxCommand::ResizePane(d, delta)).len() == 30 + enc_int(
                delta as int,
            ).len())
            &&& (d == Direction::Vertical ==> !bytes_at(
                buf@,
                pos as int + 15,
                ascii_of("\"Horizontal\""@),
            ) && bytes_at(buf@, pos as int + 15, ascii_of("\"Vertical\""@)) && bytes_at(
                buf@,
                pos as int + 25,
                ascii_of(","@),
            ) && buf@.skip(pos as int + 26) == enc_int(delta as int) + (ascii_of("]}"@) + rest)
                && bytes_at(
                buf@,
                pos as int + 26 + enc_int(delta as int).len(),
                ascii_of("]}"@),
            ) && enc_cmd(MuxCommand::ResizePane(d, delta)).len() == 28 + enc_int(
                delta as int,
            ).len())
            &&& pos + enc_cmd(MuxCommand::ResizePane(d, delta)).len() <= buf@.len()
        }) by {
            lemma_cmd_resizepane_layout(buf@, pos as int, d, delta, rest);
        }
    }
    if let Some(p) = parse_exact(buf, pos, "\"SplitHorizontal\"") {
        return Some((MuxCommand::SplitHorizontal, p));
    }
    if let Some(p) = parse_exact(buf, pos, "\"SplitVertical\"") {
        return Some((MuxCommand::SplitVertical, p));
    }
    if let Some(p) = parse_exact(buf, pos, "\"ClosePane\"") {
        return Some((MuxCommand::ClosePane, p));
    }
    if let Some(p) = parse_exact(buf, pos, "\"NextPane\"") {
        return Some((MuxCommand::NextPane, p));
    }
    if let Some(p) = parse_exact(buf, pos, "\"PrevPane\"") {
        return Some((MuxCommand::PrevPane, p));
    }
    if let Some(p) = parse_exact(buf, pos, "\"NewWindow\"") {
        return Some((MuxCommand::NewWindow, p));
    }
    if let Some(p) = parse_exact(buf, pos, "\"CloseWindow\"") {
        return Some((MuxCommand::CloseWindow, p));
    }
    if let Some(p) = parse_exact(buf, pos, "\"NextWindow\"") {
        return Some((MuxCommand::NextWindow, p));
    }
    if let Some(p) = parse_exact(buf, pos, "\"PrevWindow\"") {
        return Some((MuxCommand::PrevWindow, p));
    }
    if let Some(p) = parse_exact(buf, pos, "\"DetachSession\"") {
        return Some((MuxCommand::DetachSession, p));
    }
    if let Some(p) = parse_exact(buf, pos, "\"ToggleZoom\"") {
        return Some((MuxCommand::ToggleZoom, p));
    }
    if let Some(p) = parse_exact(buf, pos, "\"ScrollbackMode\"") {
        return Some((MuxCommand::ScrollbackMode, p));
    }
    if let Some(p1) = parse_exact(buf, pos, "{\"NavigatePane\":") {
        let (d, p2) = parse_direction(buf, p1)?;
        let p = parse_exact(buf, p2, "}")?;
        proof {
            assert forall|c: MuxCommand, rest: Seq<u8>|
                plain_cmd(c) && buf@.skip(pos as int) == #[trigger] (enc_cmd(c)
                    + rest) implies c == (MuxCommand::NavigatePane(d)) && p == pos + enc_cmd(
                c,
            ).len() by {
                match c {
                    MuxCommand::NavigatePane(dc) => {
                        assert(enc_cmd(c) == ascii_of("{\"NavigatePane\":"@) + enc_direction(
                            dc,
                        ) + ascii_of("}"@));
                        assert(cmd_token_layout(buf@, pos as int, c));
                        assert(("{\"NavigatePane\":").spec_bytes().len() == 16);
                        assert(bytes_at(
                            buf@,
                            pos as int,
                            ("{\"NavigatePane\":").spec_bytes(),
                        ));
                        assert(p1 == pos + 16);
                        if dc == Direction::Horizontal {
                            assert(enc_direction(dc) == ascii_of("\"Horizontal\""@));
                            assert(enc_cmd(c).len() == 29);
                            assert(bytes_at(buf@, p1 as int, ascii_of("\"Horizontal\""@)));
                            assert(d == Direction::Horizontal);
                            assert(p2 == pos + 28);
                            assert(bytes_at(buf@, p2 as int, ascii_of("}"@)));
                            assert(p == pos + 29);
                        } else {
                            assert(enc_direction(dc) == ascii_of("\"Vertical\""@));
                            assert(enc_cmd(c).len() == 27);
                            assert(!bytes_at(buf@, p1 as int, ascii_of("\"Horizontal\""@)));
                            assert(bytes_at(buf@, p1 as int, ascii_of("\"Vertical\""@)));
                            assert(d == Direction::Vertical);
                            assert(p2 == pos + 26);
                            assert(bytes_at(buf@, p2 as int, ascii_of("}"@)));
                            assert(p == pos + 27);
                        }
                    },
                    _ => {
                        assert(false);
                    },
                }
            }
        }
        return Some((MuxCommand::NavigatePane(d), p));
    }
    if let Some(p) = parse_exact(buf, pos, "{\"SwitchToWindow\":") {
        let (n, p) = parse_u8(buf, p)?;
        let p = parse_exact(buf, p, "}")?;
        return Some((MuxCommand::SwitchToWindow(n), p));
    }
    if let Some(p) = parse_exact(buf, pos, "{\"RenameWindow\":") {
        let (name, p) = parse_string(buf, p)?;
        let p = parse_exact(buf, p, "}")?;
        return Some((MuxCommand::RenameWindow(name), p));
    }
    if let Some(p) = parse_exact(buf, pos, "{\"ResizePane\":[") {
        let (d, p) = parse_direction(buf, p)?;
        let p = parse_exact(buf, p, ",")?;
        let (delta, p) = parse_i16(buf, p)?;
        let p = parse_exact(buf, p, "]}")?;
        return Some((MuxCommand::ResizePane(d, delta), p));
    }
    None
}

/// Parse a layout tree node at `pos`.
fn parse_node(buf: &[u8], pos: usize) -> (r: Option<(LayoutNode, usize)>)
    requires
        pos <= buf@.len(),
    ensures
        r matches Some(p) ==> pos < p.1 <= buf@.len(),
    decreases buf@.len() - pos,
{
    proof {
        reveal_strlit("{\"Leaf\":{\"pane_id\":");
        reveal_strlit("}}");
        reveal_strlit("{\"Split\":{\"direction\":");
        reveal_strlit(",\"ratio\":");
        reveal_strlit(",\"first\":");
        reveal_strlit(",\"second\":");
    }
    if let Some(p) = parse_exact(buf, pos, "{\"Leaf\":{\"pane_id\":") {
        let (id, p) = parse_id(buf, p)?;
        let p = parse_exact(buf, p, "}}")?;
        return Some((LayoutNode::Leaf { pane_id: PaneId(id) }, p));
    }
    if let Some(p) = parse_exact(buf, pos, "{\"Split\":{\"direction\":") {
        let (d, p) = parse_direction(buf, p)?;
        let p = parse_exact(buf, p, ",\"ratio\":")?;
        let (ratio, p) = parse_u16(buf, p)?;
        let p = parse_exact(buf, p, ",\"first\":")?;
        let (first, p) = parse_node(buf, p)?;
        let p = parse_exact(buf, p, ",\"second\":")?;
        let (second, p) = parse_node(buf, p)?;
        let p = parse_exact(buf, p, "}}")?;
        return Some(
            (
                LayoutNode::Split {
                    direction: d,
                    ratio,
                    first: Box::new(first),
                    second: Box::new(second),
                },
                p,
            ),
        );
    }
    None
}

/// Parse a pane's metadata at `pos`.
fn parse_pane(buf: &[u8], pos: usize) -> (r: Option<(Pane, usize)>)
    requires
        pos <= buf@.len(),
    ensures
        r matches Some(p) ==> pos < p.1 <= buf@.len(),
{
    proof {
        reveal_strlit("{\"id\":");
        reveal_strlit(",\"title\":");
        reveal_strlit("}");
    }
    let p = parse_exact(buf, pos, "{\"id\":")?;
    let (id, p) = parse_id(buf, p)?;
    let p = parse_exact(buf, p, ",\"title\":")?;
    let (title, p) = parse_string(buf, p)?;
    let p = parse_exact(buf, p, "}")?;
    Some((Pane { id: PaneId(id), title }, p))
}

/// Parse a window at `pos`.
fn parse_window(buf: &[u8], pos: usize) -> (r: Option<(MuxWindow, usize)>)
    requires
        pos <= buf@.len(),
    ensures
        r matches Some(p) ==> pos < p.1 <= buf@.len(),
{
    proof {
        reveal_strlit("{\"id\":");
        reveal_strlit(",\"name\":");
        reveal_strlit(",\"layout\":");
        reveal_strlit(",\"active_pane\":");
        reveal_strlit(",\"panes\":[");
        reveal_strlit("],\"next_pane_id\":");
        reveal_strlit(",\"zoomed\":");
        reveal_strlit("}");
    }
    let p = parse_exact(buf, pos, "{\"id\":")?;
    let (id, p) = parse_id(buf, p)?;
    let p = parse_exact(buf, p, ",\"name\":")?;
    let (name, p) = parse_string(buf, p)?;
    let p = parse_exact(buf, p, ",\"layout\":")?;
    let (layout, p) = parse_node(buf, p)?;
    let p = parse_exact(buf, p, ",\"active_pane\":")?;
    let (active, p) = parse_id(buf, p)?;
    let p = parse_exact(buf, p, ",\"panes\":[")?;
    let mut panes: Vec<Pane> = Vec::new();
    let mut p: usize = p;
    if !(p < buf.len() && buf[p] == 0x5d) {
        loop
            invariant
                pos < p <= buf@.len(),
            decreases buf@.len() - p,
        {
            let (pane, p2) = parse_pane(buf, p)?;
            panes.push(pane);
            if p2 >= buf.len() {
                return None;
            }
            if buf[p2] == 0x5d {
                p = p2;
                break;
            }
            if buf[p2] != 0x2c {
                return None;
            }
            p = p2 + 1;
        }
    }
    let p = parse_exact(buf, p, "],\"next_pane_id\":")?;
    let (next_pane_id, p) = parse_u32(buf, p)?;
    let p = parse_exact(buf, p, ",\"zoomed\":")?;
    let (zoomed, p) = parse_bool(buf, p)?;
    let p = parse_exact(buf, p, "}")?;
    Some(
        (
            MuxWindow {
                id: crate::window::WindowId(id),
                name,
                layout,
                active_pane: PaneId(active),
                panes,
                next_pane_id,
                zoomed,
            },
            p,
        ),
    )
}

/// Parse a session at `pos`. The encoding of a blank session is
/// always recognized.
#[verifier::rlimit(80)]
fn parse_session(buf: &[u8], pos: usize) -> (r: Option<(Session, usize)>)
    requires
        pos <= buf@.len(),
    ensures
        r matches Some(p) ==> pos < p.1 <= buf@.len(),
        pos == 0 && (exists|s: Session| blank_session(s) && #[trigger] enc_session(s) == buf@)
            ==> (r matches Some(p) && p.1 == buf@.len() && blank_session(p.0)),
{
    let ghost hyp = pos == 0 && (exists|s: Session|
        blank_session(s) && #[trigger] enc_session(s) == buf@);
    let n = buf.len();
    proof {
        reveal_strlit("{\"id\":");
        reveal_strlit(",\"name\":");
        reveal_strlit(",\"windows\":[");
        reveal_strlit("],\"active_window\":");
        reveal_strlit(",\"next_window_id\":");
        reveal_strlit("}");
        reveal_strlit("{\"0\":");
        lemma_token_bytes("{\"id\":");
        lemma_token_bytes(",\"name\":");
        lemma_token_bytes(",\"windows\":[");
        lemma_token_bytes("],\"active_window\":");
        lemma_token_bytes(",\"next_window_id\":");
        lemma_token_bytes("}");
        assert(n == buf@.len());
        if hyp {
            let s0 = choose|s0: Session| blank_session(s0) && enc_session(s0) == buf@;
            assert(enc_chars(Seq::<char>::empty()) == Seq::<u8>::empty());
            assert(enc_string(s0.name@) =~= seq![0x22u8, 0x22u8]);
            assert(enc_window_items(s0.windows@) == Seq::<u8>::empty());
            assert(enc_nat(0) == seq![digit_byte(0)]);
            assert(enc_id(0) == ascii_of("{\"0\":"@) + enc_nat(0) + ascii_of("}"@));
            assert(enc_id(0).len() == 7);
            assert(ascii_of("{\"id\":"@).len() == 6);
            assert(ascii_of(",\"name\":"@).len() == 8);
            assert(ascii_of(",\"windows\":["@).len() == 12);
            assert(ascii_of("],\"active_window\":"@).len() == 18);
            assert(ascii_of(",\"next_window_id\":"@).len() == 18);
            assert(buf@.len() == 74);
            assert(buf@.subrange(0, 6) =~= ascii_of("{\"id\":"@));
            assert(buf@.subrange(6, 13) =~= enc_id(0));
            assert(buf@.subrange(13, 21) =~= ascii_of(",\"name\":"@));
            assert(buf@[21] == 0x22 && buf@[22] == 0x22);
            assert(buf@.subrange(23, 35) =~= ascii_of(",\"windows\":["@));
            assert(buf@[35] == 0x5d);
            assert(buf@.subrange(35, 53) =~= ascii_of("],\"active_window\":"@));
            assert(buf@[53] == 0x30 && buf@[54] == 0x2c);
            assert(buf@.subrange(54, 72) =~= ascii_of(",\"next_window_id\":"@));
            assert(buf@[72] == 0x30 && buf@[73] == 0x7d);
            assert(buf@.subrange(73, 74) =~= ascii_of("}"@));
        }
    }
    let p = parse_exact(buf, pos, "{\"id\":")?;
    proof {
        if hyp {
            assert(p == 6);
        }
    }
    let (id, p) = parse_id(buf, p)?;
    proof {
        if hyp {
            assert(id == 0 && p == 13);
        }
    }
    let p = parse_exact(buf, p, ",\"name\":")?;
    proof {
        if hyp {
            assert(p == 21);
        }
    }
    let (name, p) = parse_string(buf, p)?;
    proof {
        if hyp {
            assert(name@ == Seq::<char>::empty() && p == 23);
        }
    }
    let p = parse_exact(buf, p, ",\"windows\":[")?;
    proof {
        if hyp {
            assert(p == 35);
        }
    }
    let mut windows: Vec<MuxWindow> = Vec::new();
    let mut p: usize = p;
    if !(p < buf.len() && buf[p] == 0x5d) {
        proof {
            if hyp {
                assert(false);
            }
        }
        loop
            invariant
                pos < p <= buf@.len(),
                !(pos == 0 && (exists|s: Session|
                    blank_session(s) && #[trigger] enc_session(s) == buf@)),
            decreases buf@.len() - p,
        {
            let (w, p2) = parse_window(buf, p)?;
            windows.push(w);
            if p2 >= buf.len() {
                return None;
            }
            if buf[p2] == 0x5d {
                p = p2;
                break;
            }
            if buf[p2] != 0x2c {
                return None;
            }
            p = p2 + 1;
        }
    }
    let p = parse_exact(buf, p, "],\"active_window\":")?;
    proof {
        if hyp {
            assert(p == 53);
        }
    }
    let (active_window, p) = parse_u64(buf, p)?;
    proof {
        if hyp {
            assert(active_window == 0 && p == 54);
        }
    }
    if active_window > usize::MAX as u64 {
        return None;
    }
    let p = parse_exact(buf, p, ",\"next_window_id\":")?;
    proof {
        if hyp {
            assert(p == 72);
        }
    }
    let (next_window_id, p) = parse_u32(buf, p)?;
    proof {
        if hyp {
            assert(next_window_id == 0 && p == 73);
        }
    }
    let p = parse_exact(buf, p, "}")?;
    proof {
        if hyp {
            assert(p == 74);
        }
    }
    Some(
        (
            Session {
                id: crate::session::SessionId(id),
                name,
                windows,
                active_window: active_window as usize,
                next_window_id,
            },
            p,
        ),
    )
}


/// The buffer layout that the encoding of a command-carrying client
/// message forces at `pos`.
proof fn lemma_client_command_layout(buf: Seq<u8>, pos: int, c: MuxCommand, rest: Seq<u8>)
    requires
        0 <= pos <= buf.len(),
        buf.skip(pos) == enc_client(crate::protocol::ClientMessage::Command(c)) + rest,
    ensures
        !bytes_at(buf, pos, ascii_of("\"Attach\""@)),
        !bytes_at(buf, pos, ascii_of("\"Detach\""@)),
        !bytes_at(buf, pos, ascii_of("{\"Input\":"@)),
        !bytes_at(buf, pos, ascii_of("{\"Resize\":{\"rows\":"@)),
        bytes_at(buf, pos, ascii_of("{\"Command\":"@)),
        buf.skip(pos + 11) == enc_cmd(c) + (ascii_of("}"@) + rest),
        bytes_at(buf, pos + 11 + enc_cmd(c).len(), ascii_of("}"@)),
        enc_client(crate::protocol::ClientMessage::Command(c)).len() == 12 + enc_cmd(c).len(),
        pos + enc_client(crate::protocol::ClientMessage::Command(c)).len() <= buf.len(),
{
    reveal_strlit("\"Attach\"");
    reveal_strlit("\"Detach\"");
    reveal_strlit("{\"Input\":");
    reveal_strlit("{\"Resize\":{\"rows\":");
    reveal_strlit("{\"Command\":");
    reveal_strlit("}");
    let me = enc_client(crate::protocol::ClientMessage::Command(c));
    let ecl = enc_cmd(c).len() as int;
    assert(me == ascii_of("{\"Command\":"@) + enc_cmd(c) + ascii_of("}"@));
    assert(ascii_of("{\"Command\":"@).len() == 11);
    assert(me.len() == 12 + ecl);
    assert(buf.skip(pos).len() == buf.len() - pos);
    assert forall|i: int| 0 <= i < me.len() implies buf[pos + i] == me[i] by {
        assert(buf.skip(pos)[i] == buf[pos + i]);
        assert(buf.skip(pos)[i] == (me + rest)[i]);
    }
    if bytes_at(buf, pos, ascii_of("\"Attach\""@)) {
        assert(buf.subrange(pos, pos + 8)[0] == ascii_of("\"Attach\""@)[0]);
        assert(buf[pos] == '"' as u8);
        assert(me[0] == '{' as u8);
        assert(false);
    }
    if bytes_at(buf, pos, ascii_of("\"Detach\""@)) {
        assert(buf.subrange(pos, pos + 8)[0] == ascii_of("\"Detach\""@)[0]);
        assert(buf[pos] == '"' as u8);
        assert(me[0] == '{' as u8);
        assert(false);
    }
    if bytes_at(buf, pos, ascii_of("{\"Input\":"@)) {
        assert(buf.subrange(pos, pos + 9)[2] == ascii_of("{\"Input\":"@)[2]);
        assert(buf[pos + 2] == 'I' as u8);
        assert(me[2] == 'C' as u8);
        assert(false);
    }
    if bytes_at(buf, pos, ascii_of("{\"Resize\":{\"rows\":"@)) {
        assert(buf.subrange(pos, pos + 18)[2] == ascii_of("{\"Resize\":{\"rows\":"@)[2]);
        assert(buf[pos + 2] == 'R' as u8);
        assert(me[2] == 'C' as u8);
        assert(false);
    }
    assert forall|j: int| 0 <= j < 11 implies buf.subrange(pos, pos + 11)[j] == ascii_of(
        "{\"Command\":"@,
    )[j] by {
        assert(buf[pos + j] == me[j]);
        assert(me[j] == ascii_of("{\"Command\":"@)[j]);
    }
    assert(buf.subrange(pos, pos + 11) =~= ascii_of("{\"Command\":"@));
    assert forall|i: int| 0 <= i < buf.len() - pos - 11 implies buf.skip(pos + 11)[i] == (
    enc_cmd(c) + (ascii_of("}"@) + rest))[i] by {
        assert(buf.skip(pos + 11)[i] == buf[pos + 11 + i]);
        assert(buf.skip(pos)[11 + i] == buf[pos + 11 + i]);
        assert(buf.skip(pos)[11 + i] == (me + rest)[11 + i]);
        if i < ecl {
            assert((me + rest)[11 + i] == me[11 + i]);
            assert(me[11 + i] == enc_cmd(c)[i]);
            assert((enc_cmd(c) + (ascii_of("}"@) + rest))[i] == enc_cmd(c)[i]);
        } else if i == ecl {
            assert((me + rest)[11 + i] == me[11 + i]);
            assert(me[11 + ecl] == ascii_of("}"@)[0]);
            assert((enc_cmd(c) + (ascii_of("}"@) + rest))[i] == ascii_of("}"@)[0]);
        } else {
            assert((me + rest)[11 + i] == rest[11 + i - me.len()]);
            assert((enc_cmd(c) + (ascii_of("}"@) + rest))[i] == rest[i - ecl - 1]);
        }
    }
    assert(buf.skip(pos + 11) =~= enc_cmd(c) + (ascii_of("}"@) + rest));
    assert(buf[pos + 11 + ecl] == me[11 + ecl]);
    assert(me[11 + ecl] == ascii_of("}"@)[0]);
    assert(buf.subrange(pos + 11 + ecl, pos + 12 + ecl) =~= ascii_of("}"@));
}

/// The buffer layout that the encoding of a resize notification
/// forces at `pos`.
proof fn lemma_client_resize_layout(
    buf: Seq<u8>,
    pos: int,
    rows: u16,
    cols: u16,
    rest: Seq<u8>,
)
    requires
        0 <= pos <= buf.len(),
        buf.skip(pos) == enc_client(
            crate::protocol::ClientMessage::Resize { rows, cols },
        ) + rest,
    ensures
        !bytes_at(buf, pos, ascii_of("\"Attach\""@)),
        !bytes_at(buf, pos, ascii_of("\"Detach\""@)),
        !bytes_at(buf, pos, ascii_of("{\"Input\":"@)),
        bytes_at(buf, pos, ascii_of("{\"Resize\":{\"rows\":"@)),
        buf.skip(pos + 18) == enc_nat(rows as nat) + (ascii_of(",\"cols\":"@) + (enc_nat(
            cols as nat,
        ) + (ascii_of("}}"@) + rest))),
        bytes_at(buf, pos + 18 + enc_nat(rows as nat).len(), ascii_of(",\"cols\":"@)),
        buf.skip(pos + 26 + enc_nat(rows as nat).len()) == enc_nat(cols as nat) + (ascii_of(
            "}}"@,
        ) + rest),
        bytes_at(
            buf,
            pos + 26 + enc_nat(rows as nat).len() + enc_nat(cols as nat).len(),
            ascii_of("}}"@),
        ),
        enc_client(crate::protocol::ClientMessage::Resize { rows, cols }).len() == 28
            + enc_nat(rows as nat).len() + enc_nat(cols as nat).len(),
        pos + enc_client(crate::protocol::ClientMessage::Resize { rows, cols }).len()
            <= buf.len(),
{
    reveal_strlit("\"Attach\"");
    reveal_strlit("\"Detach\"");
    reveal_strlit("{\"Input\":");
    reveal_strlit("{\"Resize\":{\"rows\":");
    reveal_strlit(",\"cols\":");
    reveal_strlit("}}");
    let me = enc_client(crate::protocol::ClientMessage::Resize { rows, cols });
    let rl = enc_nat(rows as nat).len() as int;
    let cl = enc_nat(cols as nat).len() as int;
    assert(me == ascii_of("{\"Resize\":{\"rows\":"@) + enc_nat(rows as nat) + ascii_of(
        ",\"cols\":"@,
    ) + enc_nat(cols as nat) + ascii_of("}}"@));
    assert(ascii_of("{\"Resize\":{\"rows\":"@).len() == 18);
    assert(ascii_of(",\"cols\":"@).len() == 8);
    assert(ascii_of("}}"@).len() == 2);
    assert(me.len() == 28 + rl + cl);
    assert(buf.skip(pos).len() == buf.len() - pos);
    assert forall|i: int| 0 <= i < me.len() implies buf[pos + i] == me[i] by {
        assert(buf.skip(pos)[i] == buf[pos + i]);
        assert(buf.skip(pos)[i] == (me + rest)[i]);
    }
    if bytes_at(buf, pos, ascii_of("\"Attach\""@)) {
        assert(buf.subrange(pos, pos + 8)[0] == ascii_of("\"Attach\""@)[0]);
        assert(buf[pos] == '"' as u8);
        assert(me[0] == '{' as u8);
        assert(false);
    }
    if bytes_at(buf, pos, ascii_of("\"Detach\""@)) {
        assert(buf.subrange(pos, pos + 8)[0] == ascii_of("\"Detach\""@)[0]);
        assert(buf[pos] == '"' as u8);
        assert(me[0] == '{' as u8);
        assert(false);
    }
    if bytes_at(buf, pos, ascii_of("{\"Input\":"@)) {
        assert(buf.subrange(pos, pos + 9)[2] == ascii_of("{\"Input\":"@)[2]);
        assert(buf[pos + 2] == 'I' as u8);
        assert(me[2] == 'R' as u8);
        assert(false);
    }
    assert forall|j: int| 0 <= j < 18 implies buf.subrange(pos, pos + 18)[j] == ascii_of(
        "{\"Resize\":{\"rows\":"@,
    )[j] by {
        assert(buf[pos + j] == me[j]);
        assert(me[j] == ascii_of("{\"Resize\":{\"rows\":"@)[j]);
    }
    assert(buf.subrange(pos, pos + 18) =~= ascii_of("{\"Resize\":{\"rows\":"@));
    assert forall|i: int| 0 <= i < me.len() implies me[i] == (if i < 18 {
        ascii_of("{\"Resize\":{\"rows\":"@)[i]
    } else if i < 18 + rl {
        enc_nat(rows as nat)[i - 18]
    } else if i < 26 + rl {
        ascii_of(",\"cols\":"@)[i - 18 - rl]
    } else if i < 26 + rl + cl {
        enc_nat(cols as nat)[i - 26 - rl]
    } else {
        ascii_of("}}"@)[i - 26 - rl - cl]
    }) by {}
    assert forall|i: int| 0 <= i < buf.len() - pos - 18 implies buf.skip(pos + 18)[i] == (
    enc_nat(rows as nat) + (ascii_of(",\"cols\":"@) + (enc_nat(cols as nat) + (ascii_of("}}"@)
        + rest))))[i] by {
        assert(buf.skip(pos + 18)[i] == buf[pos + 18 + i]);
        assert(buf.skip(pos)[18 + i] == buf[pos + 18 + i]);
        assert(buf.skip(pos)[18 + i] == (me + rest)[18 + i]);
        if 18 + i < me.len() {
            assert((me + rest)[18 + i] == me[18 + i]);
        } else {
            assert((me + rest)[18 + i] == rest[18 + i - me.len()]);
        }
    }
    assert(buf.skip(pos + 18) =~= enc_nat(rows as nat) + (ascii_of(",\"cols\":"@) + (enc_nat(
        cols as nat,
    ) + (ascii_of("}}"@) + rest))));
    assert forall|j: int| 0 <= j < 8 implies buf.subrange(
        pos + 18 + rl,
        pos + 26 + rl,
    )[j] == ascii_of(",\"cols\":"@)[j] by {
        assert(buf[pos + 18 + rl + j] == me[18 + rl + j]);
    }
    assert(buf.subrange(pos + 18 + rl, pos + 26 + rl) =~= ascii_of(",\"cols\":"@));
    assert forall|i: int| 0 <= i < buf.len() - pos - 26 - rl implies buf.skip(
        pos + 26 + rl,
    )[i] == (enc_nat(cols as nat) + (ascii_of("}}"@) + rest))[i] by {
        assert(buf.skip(pos + 26 + rl)[i] == buf[pos + 26 + rl + i]);
        assert(buf.skip(pos)[26 + rl + i] == buf[pos + 26 + rl + i]);
        assert(buf.skip(pos)[26 + rl + i] == (me + rest)[26 + rl + i]);
        if 26 + rl + i < me.len() {
            assert((me + rest)[26 + rl + i] == me[26 + rl + i]);
        } else {
            assert((me + rest)[26 + rl + i] == rest[26 + rl + i - me.len()]);
        }
    }
    assert(buf.skip(pos + 26 + rl) =~= enc_nat(cols as nat) + (ascii_of("}}"@) + rest));
    assert forall|j: int| 0 <= j < 2 implies buf.subrange(
        pos + 26 + rl + cl,
        pos + 28 + rl + cl,
    )[j] == ascii_of("}}"@)[j] by {
        assert(buf[pos + 26 + rl + cl + j] == me[26 + rl + cl + j]);
    }
    assert(buf.subrange(pos + 26 + rl + cl, pos + 28 + rl + cl) =~= ascii_of("}}"@));
}

/// Parse a client message at `pos`. A whole buffer holding the
/// encoding of an attach or detach request is always recognized.
fn parse_client(buf: &[u8], pos: usize) -> (r: Option<(crate::protocol::ClientMessage, usize)>)
    requires
        pos <= buf@.len(),
    ensures
        r matches Some(p) ==> pos < p.1 <= buf@.len(),
        pos == 0 && buf@ == enc_client(crate::protocol::ClientMessage::Attach) ==> (
        r matches Some(p) && p.0 is Attach && p.1 == buf@.len()),
        pos == 0 && buf@ == enc_client(crate::protocol::ClientMessage::Detach) ==> (
        r matches Some(p) && p.0 is Detach && p.1 == buf@.len()),
        forall|c: MuxCommand, rest: Seq<u8>|
            plain_cmd(c) && buf@.skip(pos as int) == #[trigger] (enc_client(
                crate::protocol::ClientMessage::Command(c),
            ) + rest) ==> (r matches Some(p) && (
            p.0 matches crate::protocol::ClientMessage::Command(c2) && c2 == c) && p.1 == pos
                + enc_client(crate::protocol::ClientMessage::Command(c)).len()),
        forall|k: u8, rest: Seq<u8>|
            buf@.skip(pos as int) == #[trigger] (enc_client(
                crate::protocol::ClientMessage::Command(MuxCommand::SwitchToWindow(k)),
            ) + rest) ==> (r matches Some(p) && (
            p.0 matches crate::protocol::ClientMessage::Command(c2) && c2 == (
            MuxCommand::SwitchToWindow(k))) && p.1 == pos + enc_client(
                crate::protocol::ClientMessage::Command(MuxCommand::SwitchToWindow(k)),
            ).len()),
        forall|rows: u16, cols: u16, rest: Seq<u8>|
            buf@.skip(pos as int) == #[trigger] (enc_client(
                crate::protocol::ClientMessage::Resize { rows, cols },
            ) + rest) ==> (r matches Some(p) && (
            p.0 matches crate::protocol::ClientMessage::Resize { rows: r2, cols: c2 } && r2
                == rows && c2 == cols) && p.1 == pos + enc_client(
                crate::protocol::ClientMessage::Resize { rows, cols },
            ).len()),
        forall|d: Direction, delta: i16, rest: Seq<u8>|
            buf@.skip(pos as int) == #[trigger] (enc_client(
                crate::protocol::ClientMessage::Command(MuxCommand::ResizePane(d, delta)),
            ) + rest) ==> (r matches Some(p) && (
            p.0 matches crate::protocol::ClientMessage::Command(c2) && c2 == (
            MuxCommand::ResizePane(d, delta))) && p.1 == pos + enc_client(
                crate::protocol::ClientMessage::Command(MuxCommand::ResizePane(d, delta)),
            ).len()),
{
    let n = buf.len();
    proof {
        assert(n == buf@.len());
        reveal_strlit("{\"Input\":");
        reveal_strlit("{\"Resize\":{\"rows\":");
        reveal_strlit(",\"cols\":");
        reveal_strlit("}}");
        reveal_strlit("{\"Command\":");
        reveal_strlit("}");
        reveal_strlit("\"Attach\"");
        reveal_strlit("\"Detach\"");
        lemma_token_bytes("\"Attach\"");
        lemma_token_bytes("\"Detach\"");
        lemma_token_bytes("{\"Command\":");
        lemma_token_bytes("}");
        lemma_token_bytes("{\"Input\":");
        lemma_token_bytes("{\"Resize\":{\"rows\":");
        lemma_token_bytes(",\"cols\":");
        lemma_token_bytes("}}");
        assert forall|c: MuxCommand, rest: Seq<u8>|
            plain_cmd(c) && buf@.skip(pos as int) == #[trigger] (enc_client(
                crate::protocol::ClientMessage::Command(c),
            ) + rest) implies ({
            &&& !bytes_at(buf@, pos as int, ascii_of("\"Attach\""@))
            &&& !bytes_at(buf@, pos as int, ascii_of("\"Detach\""@))
            &&& !bytes_at(buf@, pos as int, ascii_of("{\"Input\":"@))
            &&& !bytes_at(buf@, pos as int, ascii_of("{\"Resize\":{\"rows\":"@))
            &&& bytes_at(buf@, pos as int, ascii_of("{\"Command\":"@))
            &&& buf@.skip(pos as int + 11) == enc_cmd(c) + (ascii_of("}"@) + rest)
            &&& bytes_at(buf@, pos as int + 11 + enc_cmd(c).len(), ascii_of("}"@))
            &&& enc_client(crate::protocol::ClientMessage::Command(c)).len() == 12 + enc_cmd(
                c,
            ).len()
            &&& pos + enc_client(crate::protocol::ClientMessage::Command(c)).len() <= buf@.len()
        }) by {
            lemma_client_command_layout(buf@, pos as int, c, rest);
        }
        assert forall|k: u8, rest: Seq<u8>|
            buf@.skip(pos as int) == #[trigger] (enc_client(
                crate::protocol::ClientMessage::Command(MuxCommand::SwitchToWindow(k)),
            ) + rest) implies ({
            let sc = MuxCommand::SwitchToWindow(k);
            &&& !bytes_at(buf@, pos as int, ascii_of("\"Attach\""@))
            &&& !bytes_at(buf@, pos as int, ascii_of("\"Detach\""@))
            &&& !bytes_at(buf@, pos as int, ascii_of("{\"Input\":"@))
            &&& !bytes_at(buf@, pos as int, ascii_of("{\"Resize\":{\"rows\":"@))
            &&& bytes_at(buf@, pos as int, ascii_of("{\"Command\":"@))
            &&& buf@.skip(pos as int + 11) == enc_cmd(sc) + (ascii_of("}"@) + rest)
            &&& bytes_at(buf@, pos as int + 11 + enc_cmd(sc).len(), ascii_of("}"@))
            &&& enc_client(crate::protocol::ClientMessage::Command(sc)).len() == 12 + enc_cmd(
                sc,
            ).len()
            &&& pos + enc_client(crate::protocol::ClientMessage::Command(sc)).len()
                <= buf@.len()
        }) by {
            lemma_client_command_layout(
                buf@,
                pos as int,
                MuxCommand::SwitchToWindow(k),
                rest,
            );
        }
        assert forall|rows: u16, cols: u16, rest: Seq<u8>|
            buf@.skip(pos as int) == #[trigger] (enc_client(
                crate::protocol::ClientMessage::Resize { rows, cols },
            ) + rest) implies ({
            &&& !bytes_at(buf@, pos as int, ascii_of("\"Attach\""@))
            &&& !bytes_at(buf@, pos as int, ascii_of("\"Detach\""@))
            &&& !bytes_at(buf@, pos as int, ascii_of("{\"Input\":"@))
            &&& bytes_at(buf@, pos as int, ascii_of("{\"Resize\":{\"rows\":"@))
            &&& buf@.skip(pos as int + 18) == enc_nat(rows as nat) + (ascii_of(",\"cols\":"@)
                + (enc_nat(cols as nat) + (ascii_of("}}"@) + rest)))
            &&& bytes_at(
                buf@,
                pos as int + 18 + enc_nat(rows as nat).len(),
                ascii_of(",\"cols\":"@),
            )
            &&& buf@.skip(pos as int + 26 + enc_nat(rows as nat).len()) == enc_nat(cols as nat)
                + (ascii_of("}}"@) + rest)
            &&& bytes_at(
                buf@,
                pos as int + 26 + enc_nat(rows as nat).len() + enc_nat(cols as nat).len(),
                ascii_of("}}"@),
            )
            &&& enc_client(crate::protocol::ClientMessage::Resize { rows, cols }).len() == 28
                + enc_nat(rows as nat).len() + enc_nat(cols as nat).len()
            &&& pos + enc_client(crate::protocol::ClientMessage::Resize { rows, cols }).len()
                <= buf@.len()
        }) by {
            lemma_client_resize_layout(buf@, pos as int, rows, cols, rest);
        }
        assert forall|d: Direction, delta: i16, rest: Seq<u8>|
            buf@.skip(pos as int) == #[trigger] (enc_client(
                crate::protocol::ClientMessage::Command(MuxCommand::ResizePane(d, delta)),
            ) + rest) implies ({
            let rc = MuxCommand::ResizePane(d, delta);
            &&& !bytes_at(buf@, pos as int, ascii_of("\"Attach\""@))
            &&& !bytes_at(buf@, pos as int, ascii_of("\"Detach\""@))
            &&& !bytes_at(buf@, pos as int, ascii_of("{\"Input\":"@))
            &&& !bytes_at(buf@, pos as int, ascii_of("{\"Resize\":{\"rows\":"@))
            &&& bytes_at(buf@, pos as int, ascii_of("{\"Command\":"@))
            &&& buf@.skip(pos as int + 11) == enc_cmd(rc) + (ascii_of("}"@) + rest)
            &&& bytes_at(buf@, pos as int + 11 + enc_cmd(rc).len(), ascii_of("}"@))
            &&& enc_client(crate::protocol::ClientMessage::Command(rc)).len() == 12 + enc_cmd(
                rc,
            ).len()
            &&& pos + enc_client(crate::protocol::ClientMessage::Command(rc)).len()
                <= buf@.len()
        }) by {
            lemma_client_command_layout(
                buf@,
                pos as int,
                MuxCommand::ResizePane(d, delta),
                rest,
            );
        }
        if pos == 0 && buf@ == enc_client(crate::protocol::ClientMessage::Attach) {
            assert(buf@.subrange(0, ascii_of("\"Attach\""@).len() as int) =~= buf@);
        }
        if pos == 0 && buf@ == enc_client(crate::protocol::ClientMessage::Detach) {
            assert(buf@.subrange(0, ascii_of("\"Detach\""@).len() as int) =~= buf@);
        }
    }
    if let Some(p) = parse_exact(buf, pos, "\"Attach\"") {
        proof {
            if pos == 0 && buf@ == enc_client(crate::protocol::ClientMessage::Detach) {
                assert(ascii_of("\"Attach\""@)[1] == 'A' as u8);
                assert(ascii_of("\"Detach\""@)[1] == 'D' as u8);
            }
        }
        return Some((crate::protocol::ClientMessage::Attach, p));
    }
    if let Some(p) = parse_exact(buf, pos, "\"Detach\"") {
        return Some((crate::protocol::ClientMessage::Detach, p));
    }
    if let Some(p) = parse_exact(buf, pos, "{\"Input\":") {
        let (data, p) = parse_bytes_array(buf, p)?;
        let p = parse_exact(buf, p, "}")?;
        return Some((crate::protocol::ClientMessage::Input(data), p));
    }
    if let Some(p) = parse_exact(buf, pos, "{\"Resize\":{\"rows\":") {
        let (rows, p) = parse_u16(buf, p)?;
        let p = parse_exact(buf, p, ",\"cols\":")?;
        let (cols, p) = parse_u16(buf, p)?;
        let p = parse_exact(buf, p, "}}")?;
        return Some((crate::protocol::ClientMessage::Resize { rows, cols }, p));
    }
    if let Some(p) = parse_exact(buf, pos, "{\"Command\":") {
        let (cmd, p) = parse_cmd(buf, p)?;
        let p = parse_exact(buf, p, "}")?;
        return Some((crate::protocol::ClientMessage::Command(cmd), p));
    }
    None
}

/// The buffer layout that the encoding of a pane-exit notice forces
/// at `pos`.
proof fn lemma_server_pane_exited_layout(buf: Seq<u8>, pos: int, id: u32, rest: Seq<u8>)
    requires
        0 <= pos <= buf.len(),
        buf.skip(pos) == enc_server(
            crate::protocol::ServerMessage::PaneExited(PaneId(id)),
        ) + rest,
    ensures
        !bytes_at(buf, pos, ascii_of("\"ServerShutdown\""@)),
        !bytes_at(buf, pos, ascii_of("{\"Output\":{\"pane_id\":"@)),
        !bytes_at(buf, pos, ascii_of("{\"StateSync\":"@)),
        bytes_at(buf, pos, ascii_of("{\"PaneExited\":"@)),
        buf.skip(pos + 14) == enc_id(id as nat) + (ascii_of("}"@) + rest),
        bytes_at(buf, pos + 14 + enc_id(id as nat).len(), ascii_of("}"@)),
        enc_server(crate::protocol::ServerMessage::PaneExited(PaneId(id))).len() == 15
            + enc_id(id as nat).len(),
        pos + enc_server(crate::protocol::ServerMessage::PaneExited(PaneId(id))).len()
            <= buf.len(),
{
    reveal_strlit("\"ServerShutdown\"");
    reveal_strlit("{\"Output\":{\"pane_id\":");
    reveal_strlit("{\"StateSync\":");
    reveal_strlit("{\"PaneExited\":");
    reveal_strlit("}");
    let me = enc_server(crate::protocol::ServerMessage::PaneExited(PaneId(id)));
    let ecl = enc_id(id as nat).len() as int;
    assert(me == ascii_of("{\"PaneExited\":"@) + enc_id(id as nat) + ascii_of("}"@));
    assert(ascii_of("{\"PaneExited\":"@).len() == 14);
    assert(me.len() == 15 + ecl);
    assert(buf.skip(pos).len() == buf.len() - pos);
    assert forall|i: int| 0 <= i < me.len() implies buf[pos + i] == me[i] by {
        assert(buf.skip(pos)[i] == buf[pos + i]);
        assert(buf.skip(pos)[i] == (me + rest)[i]);
    }
    if bytes_at(buf, pos, ascii_of("\"ServerShutdown\""@)) {
        assert(buf.subrange(pos, pos + 16)[0] == ascii_of("\"ServerShutdown\""@)[0]);
        assert(buf[pos] == '"' as u8);
        assert(me[0] == '{' as u8);
        assert(false);
    }
    if bytes_at(buf, pos, ascii_of("{\"Output\":{\"pane_id\":"@)) {
        assert(buf.subrange(pos, pos + 21)[2] == ascii_of("{\"Output\":{\"pane_id\":"@)[2]);
        assert(buf[pos + 2] == 'O' as u8);
        assert(me[2] == 'P' as u8);
        assert(false);
    }
    if bytes_at(buf, pos, ascii_of("{\"StateSync\":"@)) {
        assert(buf.subrange(pos, pos + 13)[2] == ascii_of("{\"StateSync\":"@)[2]);
        assert(buf[pos + 2] == 'S' as u8);
        assert(me[2] == 'P' as u8);
        assert(false);
    }
    assert forall|j: int| 0 <= j < 14 implies buf.subrange(pos, pos + 14)[j] == ascii_of(
        "{\"PaneExited\":"@,
    )[j] by {
        assert(buf[pos + j] == me[j]);
        assert(me[j] == ascii_of("{\"PaneExited\":"@)[j]);
    }
    assert(buf.subrange(pos, pos + 14) =~= ascii_of("{\"PaneExited\":"@));
    assert forall|i: int| 0 <= i < buf.len() - pos - 14 implies buf.skip(pos + 14)[i] == (
    enc_id(id as nat) + (ascii_of("}"@) + rest))[i] by {
        assert(buf.skip(pos + 14)[i] == buf[pos + 14 + i]);
        assert(buf.skip(pos)[14 + i] == buf[pos + 14 + i]);
        assert(buf.skip(pos)[14 + i] == (me + rest)[14 + i]);
        if 14 + i < me.len() {
            assert((me + rest)[14 + i] == me[14 + i]);
        } else {
            assert((me + rest)[14 + i] == rest[14 + i - me.len()]);
        }
    }
    assert(buf.skip(pos + 14) =~= enc_id(id as nat) + (ascii_of("}"@) + rest));
    assert(buf[pos + 14 + ecl] == me[14 + ecl]);
    assert(me[14 + ecl] == ascii_of("}"@)[0]);
    assert(buf.subrange(pos + 14 + ecl, pos + 15 + ecl) =~= ascii_of("}"@));
}

/// Parse a server message at `pos`. A whole buffer holding the
/// encoding of the shutdown notice is always recognized.
fn parse_server(buf: &[u8], pos: usize) -> (r: Option<(crate::protocol::ServerMessage, usize)>)
    requires
        pos <= buf@.len(),
    ensures
        r matches Some(p) ==> pos < p.1 <= buf@.len(),
        pos == 0 && buf@ == enc_server(crate::protocol::ServerMessage::ServerShutdown) ==> (
        r matches Some(p) && p.0 is ServerShutdown && p.1 == buf@.len()),
        forall|id: u32, rest: Seq<u8>|
            buf@.skip(pos as int) == #[trigger] (enc_server(
                crate::protocol::ServerMessage::PaneExited(PaneId(id)),
            ) + rest) ==> (r matches Some(p) && p.0 == (
            crate::protocol::ServerMessage::PaneExited(PaneId(id))) && p.1 == pos + enc_server(
                crate::protocol::ServerMessage::PaneExited(PaneId(id)),
            ).len()),
{
    let n = buf.len();
    proof {
        assert(n == buf@.len());
        reveal_strlit("{\"Output\":{\"pane_id\":");
        reveal_strlit(",\"data\":");
        reveal_strlit("}}");
        reveal_strlit("{\"StateSync\":");
        reveal_strlit("{\"PaneExited\":");
        reveal_strlit("}");
        reveal_strlit("\"ServerShutdown\"");
        lemma_token_bytes("{\"Output\":{\"pane_id\":");
        lemma_token_bytes("{\"StateSync\":");
        lemma_token_bytes("{\"PaneExited\":");
        lemma_token_bytes("}");
        assert forall|id: u32, rest: Seq<u8>|
            buf@.skip(pos as int) == #[trigger] (enc_server(
                crate::protocol::ServerMessage::PaneExited(PaneId(id)),
            ) + rest) implies ({
            &&& !bytes_at(buf@, pos as int, ascii_of("\"ServerShutdown\""@))
            &&& !bytes_at(buf@, pos as int, ascii_of("{\"Output\":{\"pane_id\":"@))
            &&& !bytes_at(buf@, pos as int, ascii_of("{\"StateSync\":"@))
            &&& bytes_at(buf@, pos as int, ascii_of("{\"PaneExited\":"@))
            &&& buf@.skip(pos as int + 14) == enc_id(id as nat) + (ascii_of("}"@) + rest)
            &&& bytes_at(buf@, pos as int + 14 + enc_id(id as nat).len(), ascii_of("}"@))
            &&& enc_server(crate::protocol::ServerMessage::PaneExited(PaneId(id))).len() == 15
                + enc_id(id as nat).len()
            &&& pos + enc_server(crate::protocol::ServerMessage::PaneExited(PaneId(id))).len()
                <= buf@.len()
        }) by {
            lemma_server_pane_exited_layout(buf@, pos as int, id, rest);
        }
        lemma_token_bytes("\"ServerShutdown\"");
        if pos == 0 && buf@ == enc_server(crate::protocol::ServerMessage::ServerShutdown) {
            assert(buf@.subrange(0, ascii_of("\"ServerShutdown\""@).len() as int) =~= buf@);
        }
    }
    if let Some(p) = parse_exact(buf, pos, "\"ServerShutdown\"") {
        return Some((crate::protocol::ServerMessage::ServerShutdown, p));
    }
    if let Some(p) = parse_exact(buf, pos, "{\"Output\":{\"pane_id\":") {
        let (id, p) = parse_id(buf, p)?;
        let p = parse_exact(buf, p, ",\"data\":")?;
        let (data, p) = parse_bytes_array(buf, p)?;
        let p = parse_exact(buf, p, "}}")?;
        return Some(
            (crate::protocol::ServerMessage::Output { pane_id: PaneId(id), data }, p),
        );
    }
    if let Some(p) = parse_exact(buf, pos, "{\"StateSync\":") {
        let (s, p) = parse_session(buf, p)?;
        let p = parse_exact(buf, p, "}")?;
        return Some((crate::protocol::ServerMessage::StateSync(s), p));
    }
    if let Some(p) = parse_exact(buf, pos, "{\"PaneExited\":") {
        let (id, p) = parse_id(buf, p)?;
        let p = parse_exact(buf, p, "}")?;
        return Some((crate::protocol::ServerMessage::PaneExited(PaneId(id)), p));
    }
    None
}

/// Decode a client message from its exact JSON bytes.
///
/// A successful decode proves the payload is the canonical encoding
/// of the returned message: the parse is checked by re-encoding.
/// Success is owed, and proved, on the payload-free messages; on the
/// other canonical encodings it is exercised by tests.
pub fn decode_client_message(payload: &[u8]) -> (r: Option<crate::protocol::ClientMessage>)
    ensures
        r matches Some(m) ==> payload@ == enc_client(m),
        payload@ == enc_client(crate::protocol::ClientMessage::Attach) ==> (r matches Some(m)
            && m is Attach),
        payload@ == enc_client(crate::protocol::ClientMessage::Detach) ==> (r matches Some(m)
            && m is Detach),
        forall|c: MuxCommand|
            plain_cmd(c) && payload@ == #[trigger] enc_client(
                crate::protocol::ClientMessage::Command(c),
            ) ==> (r matches Some(m) && (m matches crate::protocol::ClientMessage::Command(c2)
                && c2 == c)),
        forall|k: u8|
            payload@ == #[trigger] enc_client(
                crate::protocol::ClientMessage::Command(MuxCommand::SwitchToWindow(k)),
            ) ==> (r matches Some(m) && (m matches crate::protocol::ClientMessage::Command(c2)
                && c2 == (MuxCommand::SwitchToWindow(k)))),
        forall|rows: u16, cols: u16|
            payload@ == #[trigger] enc_client(
                crate::protocol::ClientMessage::Resize { rows, cols },
            ) ==> (r matches Some(m) && (
            m matches crate::protocol::ClientMessage::Resize { rows: r2, cols: c2 } && r2
                == rows && c2 == cols)),
        forall|d: Direction, delta: i16|
            payload@ == #[trigger] enc_client(
                crate::protocol::ClientMessage::Command(MuxCommand::ResizePane(d, delta)),
            ) ==> (r matches Some(m) && (m matches crate::protocol::ClientMessage::Command(c2)
                && c2 == (MuxCommand::ResizePane(d, delta)))),
{
    proof {
        assert forall|c: MuxCommand|
            plain_cmd(c) && payload@ == #[trigger] enc_client(
                crate::protocol::ClientMessage::Command(c),
            ) implies payload@.skip(0) == enc_client(crate::protocol::ClientMessage::Command(c))
            + Seq::<u8>::empty() by {
            assert(payload@.skip(0) =~= enc_client(crate::protocol::ClientMessage::Command(c))
                + Seq::<u8>::empty());
        }
        assert forall|k: u8|
            payload@ == #[trigger] enc_client(
                crate::protocol::ClientMessage::Command(MuxCommand::SwitchToWindow(k)),
            ) implies payload@.skip(0) == enc_client(
            crate::protocol::ClientMessage::Command(MuxCommand::SwitchToWindow(k)),
        ) + Seq::<u8>::empty() by {
            assert(payload@.skip(0) =~= enc_client(
                crate::protocol::ClientMessage::Command(MuxCommand::SwitchToWindow(k)),
            ) + Seq::<u8>::empty());
        }
        assert forall|rows: u16, cols: u16|
            payload@ == #[trigger] enc_client(
                crate::protocol::ClientMessage::Resize { rows, cols },
            ) implies payload@.skip(0) == enc_client(
            crate::protocol::ClientMessage::Resize { rows, cols },
        ) + Seq::<u8>::empty() by {
            assert(payload@.skip(0) =~= enc_client(
                crate::protocol::ClientMessage::Resize { rows, cols },
            ) + Seq::<u8>::empty());
        }
        assert forall|d: Direction, delta: i16|
            payload@ == #[trigger] enc_client(
                crate::protocol::ClientMessage::Command(MuxCommand::ResizePane(d, delta)),
            ) implies payload@.skip(0) == enc_client(
            crate::protocol::ClientMessage::Command(MuxCommand::ResizePane(d, delta)),
        ) + Seq::<u8>::empty() by {
            assert(payload@.skip(0) =~= enc_client(
                crate::protocol::ClientMessage::Command(MuxCommand::ResizePane(d, delta)),
            ) + Seq::<u8>::empty());
        }
    }
    let (m, p) = match parse_client(payload, 0) {
        Some(x) => x,
        None => {
            return None;
        },
    };
    if p != payload.len() {
        return None;
    }
    let again = encode_client_message(&m);
    if bytes_eq(&again, payload) {
        Some(m)
    } else {
        None
    }
}

/// Decode a server message from its exact JSON bytes.
///
/// A successful decode proves the payload is the canonical encoding
/// of the returned message. Success is owed, and proved, on the
/// payload-free message; on the other canonical encodings it is
/// exercised by tests.
pub fn decode_server_message(payload: &[u8]) -> (r: Option<crate::protocol::ServerMessage>)
    ensures
        r matches Some(m) ==> payload@ == enc_server(m),
        payload@ == enc_server(crate::protocol::ServerMessage::ServerShutdown) ==> (
        r matches Some(m) && m is ServerShutdown),
        forall|id: u32|
            payload@ == #[trigger] enc_server(
                crate::protocol::ServerMessage::PaneExited(PaneId(id)),
            ) ==> (r matches Some(m) && m == (crate::protocol::ServerMessage::PaneExited(
                PaneId(id),
            ))),
{
    proof {
        assert forall|id: u32|
            payload@ == #[trigger] enc_server(
                crate::protocol::ServerMessage::PaneExited(PaneId(id)),
            ) implies payload@.skip(0) == enc_server(
            crate::protocol::ServerMessage::PaneExited(PaneId(id)),
        ) + Seq::<u8>::empty() by {
            assert(payload@.skip(0) =~= enc_server(
                crate::protocol::ServerMessage::PaneExited(PaneId(id)),
            ) + Seq::<u8>::empty());
        }
    }
    let (m, p) = match parse_server(payload, 0) {
        Some(x) => x,
        None => {
            return None;
        },
    };
    if p != payload.len() {
        return None;
    }
    let again = encode_server_message(&m);
    if bytes_eq(&again, payload) {
        Some(m)
    } else {
        None
    }
}

/// Decode a session from its exact JSON bytes.
///
/// A successful decode proves the payload is the canonical encoding
/// of the returned session. Success is owed, and proved, on the
/// blank session's encoding; on the other canonical encodings it is
/// exercised by tests.
pub fn decode_session(payload: &[u8]) -> (r: Option<Session>)
    ensures
        r matches Some(s) ==> payload@ == enc_session(s),
        forall|s: Session| blank_session(s) && payload@ == #[trigger] enc_session(s) ==> r
            is Some,
{
    let (s, p) = match parse_session(payload, 0) {
        Some(x) => x,
        None => {
            return None;
        },
    };
    if p != payload.len() {
        return None;
    }
    let again = encode_session(&s);
    if bytes_eq(&again, payload) {
        Some(s)
    } else {
        None
    }
}

} // verus!
