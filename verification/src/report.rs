//! Progress reporting: the verified code renders the move sequence into
//! ASCII bytes; trusted calls turn bytes into a `String` and print the
//! protocol lines. Reporting is an interface concern, so the contracts
//! here only guarantee well-formed ASCII text.

use std::io::Write;
use vstd::prelude::*;
use crate::board::Mv;

verus! {

pub open spec fn all_ascii(s: Seq<u8>) -> bool {
    forall|i: int| 0 <= i < s.len() ==> s[i] < 128
}

/// The coordinate text of a move, as bytes: file letter and rank digit of
/// the source, then of the destination, then the promotion letter if any.
pub open spec fn move_bytes_spec(m: Mv) -> Seq<u8> {
    let base = seq![
        (97 + m.from % 8) as u8,
        (49 + m.from / 8) as u8,
        (97 + m.to % 8) as u8,
        (49 + m.to / 8) as u8,
    ];
    if m.promo == 1 {
        base.push(110)
    } else if m.promo == 2 {
        base.push(98)
    } else if m.promo == 3 {
        base.push(114)
    } else if m.promo == 4 {
        base.push(113)
    } else {
        base
    }
}

/// Append the coordinate text of a move (file letter, rank digit, twice,
/// then a promotion letter if any) to `out`.
pub fn push_move_bytes(out: &mut Vec<u8>, m: Mv)
    requires
        m.wf(),
        all_ascii(old(out)@),
    ensures
        all_ascii(final(out)@),
        final(out)@ == old(out)@ + move_bytes_spec(m),
{
    out.push(97 + m.from % 8);
    out.push(49 + m.from / 8);
    out.push(97 + m.to % 8);
    out.push(49 + m.to / 8);
    if m.promo == 1 {
        out.push(110);
    } else if m.promo == 2 {
        out.push(98);
    } else if m.promo == 3 {
        out.push(114);
    } else if m.promo == 4 {
        out.push(113);
    }
    proof {
        assert(out@ =~= old(out)@ + move_bytes_spec(m));
    }
}

/// Append an ASCII space.
pub fn push_space(out: &mut Vec<u8>)
    requires
        all_ascii(old(out)@),
    ensures
        all_ascii(final(out)@),
        final(out)@ == old(out)@.push(32),
{
    out.push(32);
}

/// Relies on `String::from_utf8_lossy`: bytes below 128 are one-byte
/// UTF-8 sequences, so they map one-to-one to the characters with the
/// same code points.
#[verifier::external_body]
pub fn ascii_string(bytes: &Vec<u8>) -> (r: String)
    requires
        all_ascii(bytes@),
    ensures
        r@.len() == bytes@.len(),
        forall|i: int| 0 <= i < bytes@.len() ==> r@[i] == bytes@[i] as char,
{
    String::from_utf8_lossy(bytes.as_slice()).into_owned()
}

/// Relies on `std::io::Stdout::write_fmt` (through `writeln`): prints one
/// progress line for a completed depth, with the fields the protocol
/// expects.
#[verifier::external_body]
pub fn emit_info(
    depth: u8,
    seldepth: u64,
    score: i32,
    nodes: u64,
    nps: u64,
    time_ms: u64,
    pv: &String,
) {
    let _ = writeln!(
        std::io::stdout(),
        "info depth {} seldepth {} score cp {} nodes {} nps {} time {} pv {}",
        depth,
        seldepth,
        score,
        nodes,
        nps,
        time_ms,
        pv,
    );
}

/// Relies on `std::io::Stdout::write_fmt` (through `writeln`): prints the
/// final best-move line.
#[verifier::external_body]
pub fn emit_best(mv: &String) {
    let _ = writeln!(std::io::stdout(), "bestmove {}", mv);
}

} // verus!
