//! Opening positions: EPD records from an opening book, turned into the full
//! FEN records that games start from.
use vstd::prelude::*;
use crate::text::{
    chars_of, is_ws, leading_word, leading_ws, lemma_leading_word_is, lemma_leading_ws_is,
    parse_unsigned, parse_unsigned_chars, push_char, push_decimal, decimal, scan_ws, split_chars,
    split_on, trim, trim_chars, string_from_chars, lemma_split_on_nonempty,
};

verus! {

#[verifier::external_type_specification]
#[verifier::external_body]
pub struct ExEpd(shakmaty::fen::Epd);

#[verifier::external_type_specification]
#[verifier::external_body]
pub struct ExBoard(cozy_chess::Board);

/// Whether `shakmaty` reads `position` as an EPD record.
pub uninterp spec fn shakmaty_epd_parses(position: Seq<char>) -> bool;

/// Whether `cozy_chess` reads `fen` as a board.
pub uninterp spec fn cozy_fen_parses(fen: Seq<char>) -> bool;

/// Parses an EPD record with `shakmaty::fen::Epd::from_ascii`; the contract
/// claims only that the outcome is decided by the text alone.
#[verifier::external_body]
fn epd_from_ascii(position: &str) -> (r: Option<shakmaty::fen::Epd>)
    ensures
        r is Some == shakmaty_epd_parses(position@),
{
    shakmaty::fen::Epd::from_ascii(position.as_bytes()).ok()
}

/// Renders an EPD record with its `Display` implementation. Nothing is
/// claimed of the text.
#[verifier::external_body]
fn epd_to_text(epd: &shakmaty::fen::Epd) -> (r: String) {
    epd.to_string()
}

/// Whether `shakmaty::fen::Epd::into_position` builds a legal standard-chess
/// position from the record. Nothing is claimed of the answer.
#[verifier::external_body]
fn epd_is_legal(epd: shakmaty::fen::Epd) -> (r: bool) {
    epd.into_position::<shakmaty::Chess>(shakmaty::CastlingMode::Standard).is_ok()
}

/// Parses a board with `cozy_chess`'s `FromStr` for `Board`; the contract
/// claims only that the outcome is decided by the text alone.
#[verifier::external_body]
fn board_from_fen(fen: &str) -> (r: Option<cozy_chess::Board>)
    ensures
        r is Some == cozy_fen_parses(fen@),
{
    fen.parse::<cozy_chess::Board>().ok()
}

/// An EPD operation whose operand sets a move counter.
#[derive(Debug, Clone, Copy, PartialEq, Eq, Structural)]
pub enum ClockOpcode {
    Hmvc,
    Fmvn,
}

/// Why an opening record was refused.
#[derive(Debug, Clone, Copy, PartialEq, Eq, Structural)]
pub enum OpeningError {
    /// The record does not start with four position fields.
    FieldCount,
    /// The position fields are not an EPD position.
    InvalidPosition,
    /// The position is not a legal chess position.
    IllegalPosition,
    /// A quoted operand is not closed.
    UnterminatedString,
    /// Text follows the last `;`, or no operation ends with `;`.
    UnterminatedOperations,
    /// Two `;` with nothing between them.
    EmptyOperation,
    /// An operation without an opcode.
    MissingOpcode,
    /// A counter operation without its value.
    MissingValue(ClockOpcode),
    /// A counter operation with more than one operand.
    TooManyOperands(ClockOpcode),
    /// A counter value that is not a number in range.
    InvalidValue(ClockOpcode),
    /// A halfmove clock above one hundred.
    HalfmoveTooLarge,
    /// A fullmove number of zero.
    FullmoveZero,
    /// The resulting FEN is refused by the board parser.
    InvalidFen,
}

/// The move counters of an opening position.
#[derive(Debug, Clone, Copy, PartialEq, Eq, Structural)]
pub struct EpdClocks {
    pub halfmove_clock: u8,
    pub fullmove_number: u16,
}

/// The counters of a record that sets none.
pub open spec fn default_clocks() -> EpdClocks {
    EpdClocks { halfmove_clock: 0, fullmove_number: 1 }
}

/// The first `k` white-space separated fields of `s`, and what follows the
/// last of them, as `split_whitespace` finds them; `None` if `s` has fewer.
pub open spec fn take_fields(s: Seq<char>, k: nat) -> Option<(Seq<Seq<char>>, Seq<char>)>
    decreases k,
{
    if k == 0 {
        Some((seq![], s))
    } else {
        let t = s.skip(leading_ws(s) as int);
        if t.len() == 0 {
            None
        } else {
            let n = leading_word(t);
            match take_fields(t.skip(n as int), (k - 1) as nat) {
                Some((f, rest)) => Some((seq![t.take(n as int)] + f, rest)),
                None => None,
            }
        }
    }
}

/// The fields joined with single spaces.
pub open spec fn join_fields(f: Seq<Seq<char>>) -> Seq<char>
    decreases f.len(),
{
    if f.len() == 0 {
        seq![]
    } else if f.len() == 1 {
        f[0]
    } else {
        join_fields(f.drop_last()) + seq![' '] + f.last()
    }
}

/// An EPD record's four position fields, joined by single spaces, and its
/// trimmed operations.
pub open spec fn spec_split_epd(line: Seq<char>) -> Result<(Seq<char>, Seq<char>), OpeningError> {
    match take_fields(line, 4) {
        None => Err(OpeningError::FieldCount),
        Some((f, rest)) => Ok((join_fields(f), trim(rest))),
    }
}

/// What a scan of the operations has seen so far.
pub struct OpsScan {
    pub clauses: Seq<Seq<char>>,
    pub pending: Seq<char>,
    pub in_string: bool,
    pub escaped: bool,
}

pub open spec fn ops_step(st: OpsScan, ch: char) -> OpsScan {
    if st.in_string {
        let p = st.pending.push(ch);
        if st.escaped {
            OpsScan { pending: p, escaped: false, ..st }
        } else if ch == '\\' {
            OpsScan { pending: p, escaped: true, ..st }
        } else if ch == '"' {
            OpsScan { pending: p, in_string: false, ..st }
        } else {
            OpsScan { pending: p, ..st }
        }
    } else if ch == '"' {
        OpsScan { pending: st.pending.push(ch), in_string: true, ..st }
    } else if ch == ';' {
        OpsScan { clauses: st.clauses.push(trim(st.pending)), pending: seq![], ..st }
    } else {
        OpsScan { pending: st.pending.push(ch), ..st }
    }
}

/// The operations split at the `;` that stand outside quoted operands.
pub open spec fn ops_scan(s: Seq<char>) -> OpsScan
    decreases s.len(),
{
    if s.len() == 0 {
        OpsScan { clauses: seq![], pending: seq![], in_string: false, escaped: false }
    } else {
        ops_step(ops_scan(s.drop_last()), s.last())
    }
}

pub open spec fn hmvc_opcode() -> Seq<char> {
    seq!['h', 'm', 'v', 'c']
}

pub open spec fn fmvn_opcode() -> Seq<char> {
    seq!['f', 'm', 'v', 'n']
}

/// The single operand of a counter operation whose opcode is followed by `rest`.
pub open spec fn single_operand(rest: Seq<char>, op: ClockOpcode) -> Result<Seq<char>, OpeningError> {
    match take_fields(rest, 1) {
        None => Err(OpeningError::MissingValue(op)),
        Some((f, after)) => if take_fields(after, 1) is Some {
            Err(OpeningError::TooManyOperands(op))
        } else {
            Ok(f[0])
        },
    }
}

/// The effect of one trimmed operation on the counters: `hmvc n` sets the
/// halfmove clock (at most 100), `fmvn n` the fullmove number (not zero),
/// and any other operation changes nothing.
pub open spec fn spec_operation(op: Seq<char>, c: EpdClocks) -> Result<EpdClocks, OpeningError> {
    if op.len() == 0 {
        Err(OpeningError::EmptyOperation)
    } else {
        match take_fields(op, 1) {
            None => Err(OpeningError::MissingOpcode),
            Some((f, rest)) => if f[0] == hmvc_opcode() {
                match single_operand(rest, ClockOpcode::Hmvc) {
                    Err(e) => Err(e),
                    Ok(v) => match parse_unsigned(v, 255) {
                        None => Err(OpeningError::InvalidValue(ClockOpcode::Hmvc)),
                        Some(n) => if n > 100 {
                            Err(OpeningError::HalfmoveTooLarge)
                        } else {
                            Ok(EpdClocks { halfmove_clock: n as u8, ..c })
                        },
                    },
                }
            } else if f[0] == fmvn_opcode() {
                match single_operand(rest, ClockOpcode::Fmvn) {
                    Err(e) => Err(e),
                    Ok(v) => match parse_unsigned(v, 65535) {
                        None => Err(OpeningError::InvalidValue(ClockOpcode::Fmvn)),
                        Some(n) => if n == 0 {
                            Err(OpeningError::FullmoveZero)
                        } else {
                            Ok(EpdClocks { fullmove_number: n as u16, ..c })
                        },
                    },
                }
            } else {
                Ok(c)
            },
        }
    }
}

/// The operations applied in order; the first refused one decides.
pub open spec fn apply_ops(clauses: Seq<Seq<char>>, c: EpdClocks) -> Result<EpdClocks, OpeningError>
    decreases clauses.len(),
{
    if clauses.len() == 0 {
        Ok(c)
    } else {
        match apply_ops(clauses.drop_last(), c) {
            Err(e) => Err(e),
            Ok(c2) => spec_operation(clauses.last(), c2),
        }
    }
}

/// The counters that the operations of an EPD record set.
pub open spec fn spec_epd_operations(ops: Seq<char>) -> Result<EpdClocks, OpeningError> {
    if ops.len() == 0 {
        Ok(default_clocks())
    } else {
        let st = ops_scan(ops);
        match apply_ops(st.clauses, default_clocks()) {
            Err(e) => Err(e),
            Ok(c) => if st.in_string {
                Err(OpeningError::UnterminatedString)
            } else if trim(st.pending).len() > 0 || st.clauses.len() == 0 {
                Err(OpeningError::UnterminatedOperations)
            } else {
                Ok(c)
            },
        }
    }
}

/// A position's text followed by its halfmove clock and fullmove number.
pub open spec fn spec_opening_fen(position: Seq<char>, c: EpdClocks) -> Seq<char> {
    position + seq![' '] + decimal(c.halfmove_clock as nat) + seq![' '] + decimal(
        c.fullmove_number as nat,
    )
}

/// The FEN made of a rendered position and the operations' counters.
pub open spec fn spec_assemble(position: Seq<char>, ops: Seq<char>) -> Result<Seq<char>, OpeningError> {
    match spec_epd_operations(ops) {
        Err(e) => Err(e),
        Ok(c) => Ok(spec_opening_fen(position, c)),
    }
}

/// What `normalize_opening_epd` may answer for `line`: the errors that the
/// record's fields and operations decide, an illegal position, or a FEN made
/// of some rendering of the position and the operations' counters that the
/// board parser accepts.
pub open spec fn opening_outcome(line: Seq<char>, r: Result<Seq<char>, OpeningError>) -> bool {
    match spec_split_epd(line) {
        Err(e) => r == Err::<Seq<char>, OpeningError>(e),
        Ok((position, ops)) => if !shakmaty_epd_parses(position) {
            r == Err::<Seq<char>, OpeningError>(OpeningError::InvalidPosition)
        } else {
            match r {
                Err(e) => e == OpeningError::IllegalPosition || spec_epd_operations(ops) == Err::<
                    EpdClocks,
                    OpeningError,
                >(e) || (e == OpeningError::InvalidFen && spec_epd_operations(ops) is Ok),
                Ok(fen) => cozy_fen_parses(fen) && exists|text: Seq<char>|
                    spec_assemble(text, ops) == Ok::<Seq<char>, OpeningError>(fen),
            }
        },
    }
}

/// The field of `v` that starts at or after `pos`: its start and end.
pub fn next_field(v: &Vec<char>, pos: usize) -> (r: Option<(usize, usize)>)
    requires
        pos <= v.len(),
    ensures
        match r {
            None => take_fields(v@.skip(pos as int), 1) is None,
            Some((a, b)) => {
                &&& pos <= a < b <= v.len()
                &&& take_fields(v@.skip(pos as int), 1) == Some((
                    seq![v@.subrange(a as int, b as int)],
                    v@.skip(b as int),
                ))
            },
        },
{
    let a = scan_ws(v, pos, false);
    let ghost s = v@.skip(pos as int);
    proof {
        assert forall|i: int| 0 <= i < a - pos implies is_ws(#[trigger] s[i]) by {
            assert(s[i] == v@[pos + i]);
        }
        if a < v.len() {
            assert(s[a - pos] == v@[a as int]);
        }
        lemma_leading_ws_is(s, a - pos);
        assert(s.skip(leading_ws(s) as int) =~= v@.skip(a as int));
        assert(take_fields(s.skip(leading_ws(s) as int).skip(leading_word(s.skip(leading_ws(s) as int)) as int), 0) == Some((Seq::<Seq<char>>::empty(), s.skip(leading_ws(s) as int).skip(leading_word(s.skip(leading_ws(s) as int)) as int))));
    }
    if a == v.len() {
        return None;
    }
    let b = scan_ws(v, a, true);
    proof {
        let t = v@.skip(a as int);
        assert forall|i: int| 0 <= i < b - a implies !is_ws(#[trigger] t[i]) by {
            assert(t[i] == v@[a + i]);
        }
        if b < v.len() {
            assert(t[b - a] == v@[b as int]);
        }
        lemma_leading_word_is(t, b - a);
        assert(t.take(b - a) =~= v@.subrange(a as int, b as int));
        assert(t.skip(b - a) =~= v@.skip(b as int));
        assert(seq![t.take(b - a)] + Seq::<Seq<char>>::empty() =~= seq![v@.subrange(a as int, b as int)]);
    }
    Some((a, b))
}

pub proof fn lemma_take_fields_step(s: Seq<char>, k: nat, field: Seq<char>, after: Seq<char>)
    requires
        k > 0,
        take_fields(s, 1) == Some((seq![field], after)),
    ensures
        take_fields(s, k) == match take_fields(after, (k - 1) as nat) {
            Some((f, rest)) => Some((seq![field] + f, rest)),
            None => None::<(Seq<Seq<char>>, Seq<char>)>,
        },
{
    let t = s.skip(leading_ws(s) as int);
    let n = leading_word(t);
    assert(take_fields(t.skip(n as int), 0) == Some((Seq::<Seq<char>>::empty(), t.skip(n as int))));
    assert(seq![t.take(n as int)] + Seq::<Seq<char>>::empty() =~= seq![t.take(n as int)]);
    let pair = take_fields(s, 1).unwrap();
    assert(pair.0 == seq![field]);
    assert(pair.0 == seq![t.take(n as int)]);
    assert(pair.0[0] == field);
    assert(pair.1 == t.skip(n as int));
}

pub proof fn lemma_take_fields_none(s: Seq<char>, k: nat)
    requires
        k > 0,
        take_fields(s, 1) is None,
    ensures
        take_fields(s, k) is None,
{
    let t = s.skip(leading_ws(s) as int);
    let n = leading_word(t);
    assert(take_fields(t.skip(n as int), 0) is Some);
    assert(t.len() == 0);
}

/// Splits an EPD record into its four position fields, joined by single
/// spaces, and its trimmed operations.
pub fn split_epd_position(epd_line: &str) -> (r: Result<(String, String), OpeningError>)
    ensures
        match spec_split_epd(epd_line@) {
            Err(e) => r == Err::<(String, String), OpeningError>(e),
            Ok((position, ops)) => r matches Ok((p, o)) && p@ == position && o@ == ops,
        },
{
    let v = chars_of(epd_line);
    let mut position = String::new();
    let mut pos: usize = 0;
    let mut count: usize = 0;
    let ghost mut fields: Seq<Seq<char>> = seq![];
    assert(v@.skip(0) =~= v@);
    while count < 4
        invariant
            count <= 4,
            pos <= v.len(),
            v@ == epd_line@,
            fields.len() == count,
            position@ == join_fields(fields),
            take_fields(v@, 4) == match take_fields(v@.skip(pos as int), (4 - count) as nat) {
                Some((f, rest)) => Some((fields + f, rest)),
                None => None::<(Seq<Seq<char>>, Seq<char>)>,
            },
        decreases 4 - count,
    {
        match next_field(&v, pos) {
            None => {
                proof {
                    lemma_take_fields_none(v@.skip(pos as int), (4 - count) as nat);
                }
                return Err(OpeningError::FieldCount);
            },
            Some((a, b)) => {
                proof {
                    lemma_take_fields_step(v@.skip(pos as int), (4 - count) as nat, v@.subrange(a as int, b as int), v@.skip(b as int));
                }
                let ghost field = v@.subrange(a as int, b as int);
                if count > 0 {
                    push_char(&mut position, ' ');
                }
                let piece = string_from_chars(&v, a, b);
                let ghost before = position@;
                position.append(piece.as_str());
                proof {
                    let nf = fields.push(field);
                    assert(nf.drop_last() =~= fields);
                    if count == 0 {
                        assert(fields.len() == 0);
                        assert(before =~= Seq::<char>::empty());
                        assert(position@ =~= field);
                    }
                    assert(join_fields(nf) == position@);
                    assert forall|f: Seq<Seq<char>>| #[trigger] (fields + (seq![field] + f)) == nf + f by {
                        assert(fields + (seq![field] + f) =~= nf + f);
                    }
                    fields = nf;
                }
                pos = b;
                count = count + 1;
            },
        }
    }
    proof {
        assert(fields + Seq::<Seq<char>>::empty() =~= fields);
    }
    let rest = trim_chars(&v, pos);
    let ops = string_from_chars(&rest, 0, rest.len());
    assert(rest@.subrange(0, rest@.len() as int) =~= rest@);
    Ok((position, ops))
}

/// What a scan of the operations holds, in executable form.
struct ScanState {
    clauses: Vec<Vec<char>>,
    pending: Vec<char>,
    in_string: bool,
    escaped: bool,
}

/// Parses one trimmed EPD operation, updating the counters it sets.
fn parse_epd_operation(op: &Vec<char>, clocks: EpdClocks) -> (r: Result<EpdClocks, OpeningError>)
    ensures
        r == spec_operation(op@, clocks),
{
    if op.len() == 0 {
        return Err(OpeningError::EmptyOperation);
    }
    assert(op@.skip(0) =~= op@);
    let (a, b) = match next_field(op, 0) {
        None => return Err(OpeningError::MissingOpcode),
        Some(ab) => ab,
    };
    let hmvc: Vec<char> = vec!['h', 'm', 'v', 'c'];
    let fmvn: Vec<char> = vec!['f', 'm', 'v', 'n'];
    assert(hmvc@ =~= hmvc_opcode());
    assert(fmvn@ =~= fmvn_opcode());
    let is_hmvc = b - a == 4 && crate::text::matches_at(op, a, &hmvc);
    let is_fmvn = b - a == 4 && crate::text::matches_at(op, a, &fmvn);
    if !is_hmvc && !is_fmvn {
        return Ok(clocks);
    }
    let which = if is_hmvc { ClockOpcode::Hmvc } else { ClockOpcode::Fmvn };
    let (c, d) = match next_field(op, b) {
        None => return Err(OpeningError::MissingValue(which)),
        Some(cd) => cd,
    };
    if next_field(op, d).is_some() {
        return Err(OpeningError::TooManyOperands(which));
    }
    let value = string_from_chars(op, c, d);
    let digits = chars_of(value.as_str());
    if is_hmvc {
        match parse_unsigned_chars(&digits, 255) {
            None => Err(OpeningError::InvalidValue(ClockOpcode::Hmvc)),
            Some(n) => if n > 100 {
                Err(OpeningError::HalfmoveTooLarge)
            } else {
                Ok(EpdClocks { halfmove_clock: n as u8, ..clocks })
            },
        }
    } else {
        match parse_unsigned_chars(&digits, 65535) {
            None => Err(OpeningError::InvalidValue(ClockOpcode::Fmvn)),
            Some(n) => if n == 0 {
                Err(OpeningError::FullmoveZero)
            } else {
                Ok(EpdClocks { fullmove_number: n as u16, ..clocks })
            },
        }
    }
}

/// Reads the halfmove clock and fullmove number that an EPD record's
/// operations set: `hmvc` and `fmvn`, each ended by `;`.
pub fn parse_epd_operations(operations: &str) -> (r: Result<EpdClocks, OpeningError>)
    ensures
        r == spec_epd_operations(operations@),
{
    let v = chars_of(operations);
    let defaults = EpdClocks { halfmove_clock: 0, fullmove_number: 1 };
    if v.len() == 0 {
        return Ok(defaults);
    }
    let mut st = ScanState { clauses: Vec::new(), pending: Vec::new(), in_string: false, escaped: false };
    let mut i: usize = 0;
    assert(v@.take(0) =~= Seq::<char>::empty());
    while i < v.len()
        invariant
            i <= v.len(),
            v@ == operations@,
            ({
                let m = ops_scan(v@.take(i as int));
                &&& st.clauses@.map_values(|c: Vec<char>| c@) == m.clauses
                &&& st.pending@ == m.pending
                &&& st.in_string == m.in_string
                &&& st.escaped == m.escaped
            }),
        decreases v.len() - i,
    {
        let ch = v[i];
        let ghost m = ops_scan(v@.take(i as int));
        assert(v@.take(i + 1).drop_last() =~= v@.take(i as int));
        assert(v@.take(i + 1).last() == ch);
        if st.in_string {
            st.pending.push(ch);
            if st.escaped {
                st.escaped = false;
            } else if ch == '\\' {
                st.escaped = true;
            } else if ch == '"' {
                st.in_string = false;
            }
        } else if ch == '"' {
            st.in_string = true;
            st.pending.push(ch);
        } else if ch == ';' {
            let clause = trim_chars(&st.pending, 0);
            assert(st.pending@.skip(0) =~= st.pending@);
            let ghost before = st.clauses@.map_values(|c: Vec<char>| c@);
            st.clauses.push(clause);
            assert(st.clauses@.map_values(|c: Vec<char>| c@) =~= before.push(trim(m.pending)));
            st.pending = Vec::new();
            assert(st.pending@ =~= Seq::<char>::empty());
        } else {
            st.pending.push(ch);
        }
        i = i + 1;
    }
    assert(v@.take(v.len() as int) =~= v@);
    let mut clocks = defaults;
    let mut j: usize = 0;
    let ghost all = st.clauses@.map_values(|c: Vec<char>| c@);
    assert(all.take(0) =~= Seq::<Seq<char>>::empty());
    while j < st.clauses.len()
        invariant
            j <= st.clauses.len(),
            operations@.len() > 0,
            all == st.clauses@.map_values(|c: Vec<char>| c@),
            all == ops_scan(operations@).clauses,
            apply_ops(all.take(j as int), default_clocks()) == Ok::<EpdClocks, OpeningError>(clocks),
        decreases st.clauses.len() - j,
    {
        assert(all.take(j + 1).drop_last() =~= all.take(j as int));
        assert(all.take(j + 1).last() == st.clauses@[j as int]@);
        match parse_epd_operation(&st.clauses[j], clocks) {
            Err(e) => {
                proof {
                    lemma_apply_ops_stops(all, j as int, e);
                }
                return Err(e);
            },
            Ok(c) => {
                clocks = c;
            },
        }
        j = j + 1;
    }
    assert(all.take(all.len() as int) =~= all);
    if st.in_string {
        return Err(OpeningError::UnterminatedString);
    }
    let tail = trim_chars(&st.pending, 0);
    assert(st.pending@.skip(0) =~= st.pending@);
    if tail.len() > 0 || st.clauses.len() == 0 {
        return Err(OpeningError::UnterminatedOperations);
    }
    Ok(clocks)
}

proof fn lemma_apply_ops_stops(all: Seq<Seq<char>>, j: int, e: OpeningError)
    requires
        0 <= j < all.len(),
        apply_ops(all.take(j + 1), default_clocks()) == Err::<EpdClocks, OpeningError>(e),
    ensures
        apply_ops(all, default_clocks()) == Err::<EpdClocks, OpeningError>(e),
    decreases all.len() - j,
{
    if j + 1 < all.len() {
        assert(all.take(j + 2).drop_last() =~= all.take(j + 1));
        lemma_apply_ops_stops(all, j + 1, e);
    } else {
        assert(all.take(j + 1) =~= all);
    }
}

/// The FEN for a position rendered as `position`, with the counters set by
/// the EPD `operations`.
pub fn assemble_opening_fen(position: &str, operations: &str) -> (r: Result<String, OpeningError>)
    ensures
        match spec_assemble(position@, operations@) {
            Ok(fen) => r matches Ok(f) && f@ == fen,
            Err(e) => r == Err::<String, OpeningError>(e),
        },
{
    let clocks = match parse_epd_operations(operations) {
        Err(e) => return Err(e),
        Ok(c) => c,
    };
    let mut fen = String::new();
    fen.append(position);
    push_char(&mut fen, ' ');
    push_decimal(&mut fen, clocks.halfmove_clock as u64);
    push_char(&mut fen, ' ');
    push_decimal(&mut fen, clocks.fullmove_number as u64);
    Ok(fen)
}

/// Parses a FEN record into a board.
pub fn parse_opening_board(opening: &str) -> (r: Result<cozy_chess::Board, OpeningError>)
    ensures
        r is Ok == cozy_fen_parses(opening@),
        r is Err ==> r == Err::<cozy_chess::Board, OpeningError>(OpeningError::InvalidFen),
{
    match board_from_fen(opening) {
        Some(board) => Ok(board),
        None => Err(OpeningError::InvalidFen),
    }
}

/// Turns one EPD record into the FEN record that a game starts from.
pub fn normalize_opening_epd(epd_line: &str) -> (r: Result<String, OpeningError>)
    ensures
        opening_outcome(
            epd_line@,
            match r {
                Ok(f) => Ok::<Seq<char>, OpeningError>(f@),
                Err(e) => Err(e),
            },
        ),
{
    let (position, operations) = match split_epd_position(epd_line) {
        Err(e) => return Err(e),
        Ok(parts) => parts,
    };
    let epd = match epd_from_ascii(position.as_str()) {
        None => return Err(OpeningError::InvalidPosition),
        Some(epd) => epd,
    };
    let text = epd_to_text(&epd);
    if !epd_is_legal(epd) {
        return Err(OpeningError::IllegalPosition);
    }
    let fen = match assemble_opening_fen(text.as_str(), operations.as_str()) {
        Err(e) => return Err(e),
        Ok(fen) => fen,
    };
    if parse_opening_board(fen.as_str()).is_err() {
        return Err(OpeningError::InvalidFen);
    }
    assert(spec_assemble(text@, operations@) == Ok::<Seq<char>, OpeningError>(fen@));
    Ok(fen)
}

/// A line of an opening book that was refused, counted from one.
#[derive(Debug, Clone, Copy, PartialEq, Eq, Structural)]
pub struct BookLineError {
    pub line: usize,
    pub error: OpeningError,
}

/// Whether a line of an opening book holds a record: it is neither blank nor
/// a `#` comment.
pub open spec fn is_book_entry(line: Seq<char>) -> bool {
    trim(line).len() > 0 && trim(line)[0] != '#'
}

/// The trimmed records of the given book lines, in order.
pub open spec fn book_entries(lines: Seq<Seq<char>>) -> Seq<Seq<char>>
    decreases lines.len(),
{
    if lines.len() == 0 {
        seq![]
    } else {
        let e = book_entries(lines.drop_last());
        if is_book_entry(lines.last()) {
            e.push(trim(lines.last()))
        } else {
            e
        }
    }
}

/// Reads an opening book: one EPD record per line, blank lines and `#`
/// comments skipped. A book without records gives `None`; the first refused
/// record gives its line number and the reason.
pub fn parse_opening_book(contents: &str) -> (r: Result<Option<Vec<String>>, BookLineError>)
    ensures
        ({
            let lines = split_on(contents@, '\n');
            let entries = book_entries(lines);
            match r {
                Ok(None) => entries.len() == 0,
                Ok(Some(v)) => {
                    &&& entries.len() > 0
                    &&& v.len() == entries.len()
                    &&& forall|k: int| 0 <= k < v.len() ==> opening_outcome(
                        entries[k],
                        Ok::<Seq<char>, OpeningError>(#[trigger] v@[k]@),
                    )
                },
                Err(be) => {
                    &&& 1 <= be.line <= lines.len()
                    &&& is_book_entry(lines[be.line - 1])
                    &&& opening_outcome(
                        trim(lines[be.line - 1]),
                        Err::<Seq<char>, OpeningError>(be.error),
                    )
                },
            }
        }),
{
    let chars = chars_of(contents);
    let lines = split_chars(&chars, '\n');
    let ghost lv = lines@.map_values(|l: Vec<char>| l@);
    let mut openings: Vec<String> = Vec::new();
    let mut i: usize = 0;
    assert(lv.take(0) =~= Seq::<Seq<char>>::empty());
    while i < lines.len()
        invariant
            i <= lines.len(),
            lv == lines@.map_values(|l: Vec<char>| l@),
            lv == split_on(contents@, '\n'),
            openings.len() == book_entries(lv.take(i as int)).len(),
            forall|k: int| 0 <= k < openings.len() ==> opening_outcome(
                book_entries(lv.take(i as int))[k],
                Ok::<Seq<char>, OpeningError>(#[trigger] openings@[k]@),
            ),
        decreases lines.len() - i,
    {
        let ghost before = book_entries(lv.take(i as int));
        assert(lv.take(i + 1).drop_last() =~= lv.take(i as int));
        assert(lv.take(i + 1).last() == lines@[i as int]@);
        let line = trim_chars(&lines[i], 0);
        assert(lines@[i as int]@.skip(0) =~= lines@[i as int]@);
        if line.len() > 0 && line[0] != '#' {
            let text = string_from_chars(&line, 0, line.len());
            assert(line@.subrange(0, line@.len() as int) =~= line@);
            match normalize_opening_epd(text.as_str()) {
                Err(e) => {
                    return Err(BookLineError { line: i + 1, error: e });
                },
                Ok(fen) => {
                    let ghost old_openings = openings@;
                    openings.push(fen);
                    proof {
                        let now = book_entries(lv.take(i + 1));
                        assert(now == before.push(line@));
                        assert forall|k: int| 0 <= k < openings.len() implies opening_outcome(
                            now[k],
                            Ok::<Seq<char>, OpeningError>(#[trigger] openings@[k]@),
                        ) by {
                            if k < old_openings.len() {
                                assert(openings@[k] == old_openings[k]);
                            }
                        }
                    }
                },
            }
        }
        i = i + 1;
    }
    assert(lv.take(lines.len() as int) =~= lv);
    if openings.len() == 0 {
        Ok(None)
    } else {
        Ok(Some(openings))
    }
}

} // verus!
