use vstd::prelude::*;
use crate::encoding::{command_of, decimal_u8, octave_byte, volume_byte, Command, LOOP_CLOSE, LOOP_OPEN, MARKER};
use crate::error::{CompileError, Fault};
use crate::model::{finish_encoding, lemma_header_prefix, patch_table, next_index, read_duration, compile_tokens, encode_channels, encode_loop_body, encode_token, header_total, initial_state, kind_at, EncState};
use crate::text::upper_of;
use crate::token::{TokenType, TokenView};

verus! {

/// A program whose header count is in range but whose first token is not a
/// header mark fails with `MissingLeadingHeader`.
pub proof fn law_missing_leading_header(toks: Seq<TokenView>)
    requires
        4 <= header_total(toks) <= 254,
        kind_at(toks, 0) != TokenType::Arobase,
    ensures
        compile_tokens(toks) == Err::<(Seq<u8>, Seq<crate::error::Warning>), Fault>(Fault::Error(CompileError::MissingLeadingHeader)),
{
}

/// A program with more than 254 header marks fails with `TooManyHeaders`, one with
/// fewer than 4 with `TooFewHeaders`, each carrying the count found.
pub proof fn law_header_count(toks: Seq<TokenView>)
    ensures
        header_total(toks) > 254 ==> compile_tokens(toks) == Err::<(Seq<u8>, Seq<crate::error::Warning>), Fault>(
            Fault::Error(CompileError::TooManyHeaders { count: header_total(toks) as usize })),
        header_total(toks) < 4 ==> compile_tokens(toks) == Err::<(Seq<u8>, Seq<crate::error::Warning>), Fault>(
            Fault::Error(CompileError::TooFewHeaders { count: header_total(toks) as usize })),
{
}

/// Encoding a unit keeps the octave between 1 and 5.
pub proof fn law_octave_in_range(toks: Seq<TokenView>, st: EncState, hc: int)
    requires
        1 <= st.octave <= 5,
    ensures
        encode_token(toks, st, hc) matches Ok((_, s2)) ==> 1 <= s2.octave <= 5,
    decreases toks.len() - st.idx, 0int,
{
    let i = st.idx;
    match kind_at(toks, i) {
        TokenType::LessThan => {
            if st.octave > 1 && kind_at(toks, i + 1) == TokenType::LessThan {
                law_octave_in_range(toks, EncState { idx: i + 1, octave: (st.octave - 1) as u8, ..st }, hc);
            }
        },
        TokenType::GreaterThan => {
            if st.octave < 5 && kind_at(toks, i + 1) == TokenType::GreaterThan {
                law_octave_in_range(toks, EncState { idx: i + 1, octave: (st.octave + 1) as u8, ..st }, hc);
            }
        },
        TokenType::LeftParen => {
            if kind_at(toks, i + 1) == TokenType::Number {
                if let Some(n) = decimal_u8(toks[i + 1].value) {
                    lemma_loop_octave_in_range(toks, EncState { idx: i + 2, ..st }, hc, i, seq![LOOP_OPEN, n]);
                }
            }
        },
        _ => {},
    }
}

/// The rest of a loop keeps the octave between 1 and 5.
pub proof fn lemma_loop_octave_in_range(toks: Seq<TokenView>, st: EncState, hc: int, start: int, acc: Seq<u8>)
    requires
        1 <= st.octave <= 5,
    ensures
        encode_loop_body(toks, st, hc, start, acc) matches Ok((_, s2)) ==> 1 <= s2.octave <= 5,
    decreases toks.len() - st.idx, 1int,
{
    let i = st.idx;
    if 0 <= i <= toks.len() {
        match kind_at(toks, i) {
            TokenType::RightParen | TokenType::Arobase => {},
            _ => {
                law_octave_in_range(toks, st, hc);
                if let Ok((b, s2)) = encode_token(toks, st, hc) {
                    if i < s2.idx <= toks.len() {
                        lemma_loop_octave_in_range(toks, s2, hc, start, acc + b);
                    }
                }
            },
        }
    }
}

/// The volume byte reverses the order of volumes: a louder volume gives a
/// smaller byte.
pub proof fn law_volume_order_reversing(v1: u8, v2: u8)
    requires
        v1 < v2 <= 8,
    ensures
        volume_byte(v1) > volume_byte(v2),
{
    let a: u8 = (9 - v1) as u8;
    let b: u8 = (9 - v2) as u8;
    assert((0xE0u8 | a) > (0xE0u8 | b)) by (bit_vector)
        requires a > b, a <= 9, b >= 1;
}

/// A program whose encoding, with its final marker, exceeds 65535 bytes fails
/// with `AddressOverflow`, carrying that size, and gives no buffer.
pub proof fn law_address_overflow(toks: Seq<TokenView>)
    requires
        4 <= header_total(toks) <= 254,
        kind_at(toks, 0) == TokenType::Arobase,
        encode_channels(toks, initial_state(1), header_total(toks) as int,
            Seq::new(2 * header_total(toks), |k: int| 0u8), seq![2 * header_total(toks) as int]) is Ok,
        encode_channels(toks, initial_state(1), header_total(toks) as int,
            Seq::new(2 * header_total(toks), |k: int| 0u8), seq![2 * header_total(toks) as int])->Ok_0.0.len() + 1 > 65535,
    ensures
        compile_tokens(toks) == Err::<(Seq<u8>, Seq<crate::error::Warning>), Fault>(Fault::Error(CompileError::AddressOverflow {
            size: (encode_channels(toks, initial_state(1), header_total(toks) as int,
                Seq::new(2 * header_total(toks), |k: int| 0u8), seq![2 * header_total(toks) as int])->Ok_0.0.len() + 1) as usize,
        })),
{
}

/// A note with a duration makes that duration current, and a note right after it
/// without a duration is encoded with the same duration code.
pub proof fn law_duration_persists(toks: Seq<TokenView>, st: EncState, hc: int, b1: u8, b2: u8)
    requires
        0 <= st.idx,
        kind_at(toks, st.idx) == TokenType::Command,
        command_of(upper_of(toks[st.idx].value)) == Some(Command::Note(b1)),
        kind_at(toks, st.idx + 1) == TokenType::Number,
        read_duration(toks, st.idx + 1) is Ok,
        kind_at(toks, read_duration(toks, st.idx + 1)->Ok_0.1) == TokenType::Command,
        command_of(upper_of(toks[read_duration(toks, st.idx + 1)->Ok_0.1].value)) == Some(Command::Note(b2)),
        kind_at(toks, read_duration(toks, st.idx + 1)->Ok_0.1 + 1) != TokenType::Number,
    ensures
        ({
            let d = read_duration(toks, st.idx + 1)->Ok_0.0;
            &&& encode_token(toks, st, hc) matches Ok((bytes1, s1))
            &&& bytes1 == seq![(b1 | d) as u8]
            &&& s1.duration == d
            &&& encode_token(toks, s1, hc) matches Ok((bytes2, s2))
            &&& bytes2 == seq![(b2 | d) as u8]
            &&& s2.duration == d
        }),
{
    let j = read_duration(toks, st.idx + 1)->Ok_0.1;
    assert(next_index(toks, st.idx) == st.idx + 1);
    assert(next_index(toks, j) == j + 1);
}

/// A unit that encodes moves strictly forward through the tokens and stays within
/// them; so the model's guards on progress never reject a unit.
pub proof fn law_unit_advances(toks: Seq<TokenView>, st: EncState, hc: int)
    requires
        0 <= st.idx <= toks.len(),
    ensures
        encode_token(toks, st, hc) matches Ok((_, s2)) ==> st.idx < s2.idx <= toks.len(),
    decreases toks.len() - st.idx, 0int,
{
    let i = st.idx;
    match kind_at(toks, i) {
        TokenType::LessThan => {
            if st.octave > 1 && kind_at(toks, i + 1) == TokenType::LessThan {
                law_unit_advances(toks, EncState { idx: i + 1, octave: (st.octave - 1) as u8, ..st }, hc);
            }
        },
        TokenType::GreaterThan => {
            if st.octave < 5 && kind_at(toks, i + 1) == TokenType::GreaterThan {
                law_unit_advances(toks, EncState { idx: i + 1, octave: (st.octave + 1) as u8, ..st }, hc);
            }
        },
        TokenType::LeftParen => {
            if kind_at(toks, i + 1) == TokenType::Number {
                if let Some(n) = decimal_u8(toks[i + 1].value) {
                    lemma_loop_advances(toks, EncState { idx: i + 2, ..st }, hc, i, seq![LOOP_OPEN, n]);
                }
            }
        },
        _ => {},
    }
}

/// The rest of a loop, when it encodes, moves strictly forward and stays within
/// the tokens.
pub proof fn lemma_loop_advances(toks: Seq<TokenView>, st: EncState, hc: int, start: int, acc: Seq<u8>)
    requires
        0 <= st.idx <= toks.len(),
    ensures
        encode_loop_body(toks, st, hc, start, acc) matches Ok((_, s2)) ==> st.idx < s2.idx <= toks.len(),
    decreases toks.len() - st.idx, 1int,
{
    let i = st.idx;
    match kind_at(toks, i) {
        TokenType::RightParen | TokenType::Arobase => {},
        _ => {
            law_unit_advances(toks, st, hc);
            if let Ok((b, s2)) = encode_token(toks, st, hc) {
                if kind_at(toks, s2.idx) != TokenType::EndOfFile && i < s2.idx <= toks.len() {
                    lemma_loop_advances(toks, s2, hc, start, acc + b);
                }
            }
        },
    }
}

/// No header mark stands among the tokens `[a, b)`.
pub open spec fn no_header_marks(toks: Seq<TokenView>, a: int, b: int) -> bool {
    forall|j: int| a <= j < b ==> #[trigger] toks[j].token_type != TokenType::Arobase
}

/// A unit that does not start at a header mark consumes none.
pub proof fn lemma_unit_skips_no_header(toks: Seq<TokenView>, st: EncState, hc: int)
    requires
        0 <= st.idx <= toks.len(),
        kind_at(toks, st.idx) != TokenType::Arobase,
    ensures
        encode_token(toks, st, hc) matches Ok((_, s2)) ==> no_header_marks(toks, st.idx, s2.idx),
    decreases toks.len() - st.idx, 0int,
{
    let i = st.idx;
    match kind_at(toks, i) {
        TokenType::LessThan => {
            if st.octave > 1 && kind_at(toks, i + 1) == TokenType::LessThan {
                lemma_unit_skips_no_header(toks, EncState { idx: i + 1, octave: (st.octave - 1) as u8, ..st }, hc);
            }
        },
        TokenType::GreaterThan => {
            if st.octave < 5 && kind_at(toks, i + 1) == TokenType::GreaterThan {
                lemma_unit_skips_no_header(toks, EncState { idx: i + 1, octave: (st.octave + 1) as u8, ..st }, hc);
            }
        },
        TokenType::LeftParen => {
            if kind_at(toks, i + 1) == TokenType::Number {
                if let Some(n) = decimal_u8(toks[i + 1].value) {
                    lemma_loop_skips_no_header(toks, EncState { idx: i + 2, ..st }, hc, i, seq![LOOP_OPEN, n]);
                }
            }
        },
        _ => {},
    }
}

/// The rest of a loop consumes no header mark.
pub proof fn lemma_loop_skips_no_header(toks: Seq<TokenView>, st: EncState, hc: int, start: int, acc: Seq<u8>)
    requires
        0 <= st.idx <= toks.len(),
    ensures
        encode_loop_body(toks, st, hc, start, acc) matches Ok((_, s2)) ==> no_header_marks(toks, st.idx, s2.idx),
    decreases toks.len() - st.idx, 1int,
{
    let i = st.idx;
    match kind_at(toks, i) {
        TokenType::RightParen | TokenType::Arobase => {},
        _ => {
            lemma_unit_skips_no_header(toks, st, hc);
            law_unit_advances(toks, st, hc);
            if let Ok((b, s2)) = encode_token(toks, st, hc) {
                if kind_at(toks, s2.idx) != TokenType::EndOfFile && i < s2.idx <= toks.len() {
                    lemma_loop_skips_no_header(toks, s2, hc, start, acc + b);
                }
            }
        },
    }
}

/// The offsets recorded so far start with the end of the table, rise, and each
/// later one follows a marker byte of `out` past the table.
pub open spec fn offsets_ok(out: Seq<u8>, offs: Seq<int>, hc: int) -> bool {
    &&& hc >= 0
    &&& offs.len() >= 1
    &&& offs[0] == 2 * hc
    &&& 2 * hc <= out.len()
    &&& forall|i: int| 1 <= i < offs.len() ==> offs[i - 1] < #[trigger] offs[i] && 2 * hc < offs[i]
            && offs[i] <= out.len() && out[offs[i] - 1] == MARKER
}

/// Encoding the channels keeps the offsets in order, and records one offset per
/// header mark consumed.
pub proof fn lemma_channels_offsets(toks: Seq<TokenView>, st: EncState, hc: int, out: Seq<u8>, offs: Seq<int>)
    requires
        0 <= st.idx <= toks.len(),
        offsets_ok(out, offs, hc),
    ensures
        encode_channels(toks, st, hc, out, offs) matches Ok((o2, f2, s2)) ==> {
            &&& offsets_ok(o2, f2, hc)
            &&& st.idx <= s2.idx <= toks.len()
            &&& kind_at(toks, s2.idx) == TokenType::EndOfFile
            &&& f2.len() - offs.len() == header_total(toks.take(s2.idx)) - header_total(toks.take(st.idx))
        },
    decreases toks.len() - st.idx,
{
    if kind_at(toks, st.idx) != TokenType::EndOfFile {
        law_unit_advances(toks, st, hc);
        if let Ok((b, s2)) = encode_token(toks, st, hc) {
            let at_header = kind_at(toks, st.idx) == TokenType::Arobase;
            let offs2 = if at_header { offs.push(out.len() as int + 1) } else { offs };
            if at_header {
                assert(b == seq![MARKER]);
                assert(s2.idx == st.idx + 1);
                assert(toks.take(st.idx + 1).drop_last() =~= toks.take(st.idx));
            } else {
                lemma_unit_skips_no_header(toks, st, hc);
                lemma_header_prefix(toks, st.idx, s2.idx);
            }
            assert(offsets_ok(out + b, offs2, hc)) by {
                assert forall|i: int| 1 <= i < offs2.len() implies offs2[i - 1] < #[trigger] offs2[i]
                    && 2 * hc < offs2[i] && offs2[i] <= (out + b).len() && (out + b)[offs2[i] - 1] == MARKER by {
                    if i < offs.len() {
                        assert(offs2[i] == offs[i]);
                        assert(offs2[i - 1] == offs[i - 1]);
                        assert((out + b)[offs[i] - 1] == out[offs[i] - 1]);
                    } else {
                        assert(offs2[i] == out.len() + 1);
                        assert((out + b)[out.len() as int] == b[0]);
                    }
                }
            }
            lemma_channels_offsets(toks, s2, hc, out + b, offs2);
            if let Ok((o3, f3, s3)) = encode_channels(toks, s2, hc, out + b, offs2) {
                lemma_header_prefix(toks, s2.idx, s3.idx);
            }
        }
    }
}

/// The patched buffer gives back each offset from its two table bytes, and keeps
/// every byte past the table.
pub proof fn lemma_patch_table(full: Seq<u8>, offs: Seq<int>)
    requires
        2 * offs.len() <= full.len(),
        forall|i: int| 0 <= i < offs.len() ==> 0 <= #[trigger] offs[i] <= 65535,
    ensures
        forall|i: int| 0 <= i < offs.len() ==> (patch_table(full, offs)[2 * i] as int) * 256
            + (patch_table(full, offs)[2 * i + 1] as int) == #[trigger] offs[i],
        forall|k: int| 2 * offs.len() <= k < full.len() ==> #[trigger] patch_table(full, offs)[k] == full[k],
        patch_table(full, offs).len() == full.len(),
{
    let b = patch_table(full, offs);
    assert forall|i: int| 0 <= i < offs.len() implies (b[2 * i] as int) * 256 + (b[2 * i + 1] as int) == #[trigger] offs[i] by {
        assert((2 * i) % 2 == 0 && (2 * i) / 2 == i);
        assert((2 * i + 1) % 2 == 1 && (2 * i + 1) / 2 == i);
        assert((offs[i] / 256) * 256 + offs[i] % 256 == offs[i]);
    }
}

/// The header table of a compiled program: each filled slot holds, big-endian,
/// the offset of a channel's first byte. The first slot points just past the
/// table, the offsets rise, and every later one follows a marker byte. Slots are
/// filled for the header marks met, at most all of them; the buffer ends with a
/// marker and fits in 16-bit addresses. When the end-of-file token comes only
/// last, as the lexer makes it, every slot is filled.
#[verifier::rlimit(50)]
pub proof fn law_offset_table(toks: Seq<TokenView>)
    requires
        compile_tokens(toks) is Ok,
    ensures
        ({
            let hc = header_total(toks) as int;
            let b = compile_tokens(toks)->Ok_0.0;
            let offs = encode_channels(toks, initial_state(1), hc, Seq::new((2 * hc) as nat, |k: int| 0u8), seq![2 * hc])->Ok_0.1;
            &&& b.len() <= 65535
            &&& b.last() == MARKER
            &&& 1 <= offs.len() <= hc
            &&& offs[0] == 2 * hc
            &&& forall|i: int| 0 <= i < offs.len() ==> (b[2 * i] as int) * 256 + (b[2 * i + 1] as int) == #[trigger] offs[i]
            &&& forall|i: int| 1 <= i < offs.len() ==> offs[i - 1] < #[trigger] offs[i] && offs[i] < b.len()
                    && b[offs[i] - 1] == MARKER
            &&& (forall|j: int| 0 <= j < toks.len() - 1 ==> #[trigger] toks[j].token_type != TokenType::EndOfFile)
                    ==> offs.len() == hc
        }),
{
    let hc = header_total(toks) as int;
    let zeros = Seq::new((2 * hc) as nat, |k: int| 0u8);
    let run = encode_channels(toks, initial_state(1), hc, zeros, seq![2 * hc]);
    assert(toks.take(1).drop_last() =~= toks.take(0));
    assert(header_total(toks.take(0)) == 0);
    assert(header_total(toks.take(1)) == 1);
    lemma_channels_offsets(toks, initial_state(1), hc, zeros, seq![2 * hc]);
    let (out, offs, st) = run->Ok_0;
    lemma_header_prefix(toks, st.idx, toks.len() as int);
    assert(toks.take(toks.len() as int) =~= toks);
    if forall|j: int| 0 <= j < toks.len() - 1 ==> #[trigger] toks[j].token_type != TokenType::EndOfFile {
        if st.idx < toks.len() {
            assert(st.idx == toks.len() - 1);
        }
        assert(no_header_marks(toks, st.idx, toks.len() as int));
    }
    let full = out.push(MARKER);
    assert(compile_tokens(toks) == finish_encoding(run));
    assert(compile_tokens(toks)->Ok_0.0 == patch_table(full, offs));
    assert forall|i: int| 0 <= i < offs.len() implies 0 <= #[trigger] offs[i] <= 65535 by {
        if i > 0 {
            assert(offs[i] <= out.len());
        }
    }
    lemma_patch_table(full, offs);
    assert forall|i: int| 1 <= i < offs.len() implies offs[i - 1] < #[trigger] offs[i] && offs[i] < full.len()
        && patch_table(full, offs)[offs[i] - 1] == MARKER by {
        assert(full[offs[i] - 1] == out[offs[i] - 1]);
    }
    assert(patch_table(full, offs).last() == full[full.len() - 1]);
}

/// A run of `k` octave-down shifts from octave `o` gives one byte that sets the
/// final octave `o - k` and consumes the whole run, or, when it would go below 1,
/// fails with `OctaveUnderflow`.
pub proof fn law_octave_down_run(toks: Seq<TokenView>, st: EncState, hc: int, k: int)
    requires
        0 <= st.idx,
        k >= 1,
        1 <= st.octave <= 5,
        forall|j: int| st.idx <= j < st.idx + k ==> #[trigger] kind_at(toks, j) == TokenType::LessThan,
        kind_at(toks, st.idx + k) != TokenType::LessThan,
    ensures
        k <= st.octave - 1 ==> encode_token(toks, st, hc) == Ok::<(Seq<u8>, EncState), Fault>((
            seq![octave_byte((st.octave - k) as u8)],
            EncState { idx: st.idx + k, octave: (st.octave - k) as u8, ..st },
        )),
        k > st.octave - 1 ==> encode_token(toks, st, hc) matches Err(Fault::Error(CompileError::OctaveUnderflow { .. })),
    decreases k,
{
    assert(kind_at(toks, st.idx) == TokenType::LessThan);
    if st.octave > 1 && k > 1 {
        assert(kind_at(toks, st.idx + 1) == TokenType::LessThan);
        law_octave_down_run(toks, EncState { idx: st.idx + 1, octave: (st.octave - 1) as u8, ..st }, hc, k - 1);
    }
}

/// A run of `k` octave-up shifts from octave `o` gives one byte that sets the
/// final octave `o + k` and consumes the whole run, or, when it would go above 5,
/// fails with `OctaveOverflow`.
pub proof fn law_octave_up_run(toks: Seq<TokenView>, st: EncState, hc: int, k: int)
    requires
        0 <= st.idx,
        k >= 1,
        1 <= st.octave <= 5,
        forall|j: int| st.idx <= j < st.idx + k ==> #[trigger] kind_at(toks, j) == TokenType::GreaterThan,
        kind_at(toks, st.idx + k) != TokenType::GreaterThan,
    ensures
        st.octave + k <= 5 ==> encode_token(toks, st, hc) == Ok::<(Seq<u8>, EncState), Fault>((
            seq![octave_byte((st.octave + k) as u8)],
            EncState { idx: st.idx + k, octave: (st.octave + k) as u8, ..st },
        )),
        st.octave + k > 5 ==> encode_token(toks, st, hc) matches Err(Fault::Error(CompileError::OctaveOverflow { .. })),
    decreases k,
{
    assert(kind_at(toks, st.idx) == TokenType::GreaterThan);
    if st.octave < 5 && k > 1 {
        assert(kind_at(toks, st.idx + 1) == TokenType::GreaterThan);
        law_octave_up_run(toks, EncState { idx: st.idx + 1, octave: (st.octave + 1) as u8, ..st }, hc, k - 1);
    }
}

/// The rest of a loop keeps the bytes before it and ends with the close byte.
pub proof fn lemma_loop_body_frame(toks: Seq<TokenView>, st: EncState, hc: int, start: int, acc: Seq<u8>)
    ensures
        encode_loop_body(toks, st, hc, start, acc) matches Ok((b, _)) ==> b.len() > acc.len()
            && b.subrange(0, acc.len() as int) == acc && b.last() == LOOP_CLOSE,
    decreases toks.len() - st.idx, 1int,
{
    let i = st.idx;
    if 0 <= i <= toks.len() {
        match kind_at(toks, i) {
            TokenType::RightParen => {
                assert(acc.push(LOOP_CLOSE).subrange(0, acc.len() as int) =~= acc);
            },
            TokenType::Arobase => {},
            _ => {
                if let Ok((b, s2)) = encode_token(toks, st, hc) {
                    if kind_at(toks, s2.idx) != TokenType::EndOfFile && i < s2.idx <= toks.len() {
                        lemma_loop_body_frame(toks, s2, hc, start, acc + b);
                        if let Ok((r, _)) = encode_loop_body(toks, s2, hc, start, acc + b) {
                            assert(r.subrange(0, acc.len() as int) =~= (acc + b).subrange(0, acc.len() as int));
                            assert((acc + b).subrange(0, acc.len() as int) =~= acc);
                        }
                    }
                }
            },
        }
    }
}

/// A loop `[n ...]` that encodes gives the open byte, the count `n` unchanged by
/// what the loop holds, its units' bytes, and the close byte.
pub proof fn law_loop_frame(toks: Seq<TokenView>, st: EncState, hc: int)
    requires
        0 <= st.idx,
        kind_at(toks, st.idx) == TokenType::LeftParen,
        kind_at(toks, st.idx + 1) == TokenType::Number,
        decimal_u8(toks[st.idx + 1].value) is Some,
    ensures
        encode_token(toks, st, hc) matches Ok((b, _)) ==> b.len() >= 3 && b[0] == LOOP_OPEN
            && b[1] == decimal_u8(toks[st.idx + 1].value)->Some_0 && b.last() == LOOP_CLOSE,
{
    let n = decimal_u8(toks[st.idx + 1].value)->Some_0;
    lemma_loop_body_frame(toks, EncState { idx: st.idx + 2, ..st }, hc, st.idx, seq![LOOP_OPEN, n]);
    if let Ok((b, _)) = encode_token(toks, st, hc) {
        assert(b.subrange(0, 2)[0] == b[0] && b.subrange(0, 2)[1] == b[1]);
    }
}

} // verus!
