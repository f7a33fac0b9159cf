//! Reading the answers of engines that speak the Universal Chess Interface.
use vstd::prelude::*;
use crate::epd::{lemma_take_fields_none, lemma_take_fields_step, next_field, take_fields};
use crate::text::{
    all_digits, chars_of, decimal, digits_value, is_digit, parse_unsigned, parse_unsigned_chars, push_decimal,
    sign_stripped, string_from_chars,
};

verus! {

/// The move of a `bestmove` line: its second white-space separated field,
/// when the first is `bestmove`.
pub open spec fn spec_bestmove(line: Seq<char>) -> Option<Seq<char>> {
    match take_fields(line, 2) {
        Some((f, _)) => if f[0] == "bestmove"@ {
            Some(f[1])
        } else {
            None
        },
        None => None,
    }
}

/// Reads the move from a line such as `bestmove e2e4 ponder d7d5`.
pub fn parse_bestmove(line: &str) -> (r: Option<String>)
    ensures
        match spec_bestmove(line@) {
            Some(m) => r matches Some(s) && s@ == m,
            None => r is None,
        },
{
    let v = chars_of(line);
    assert(v@.skip(0) =~= v@);
    let (a, b) = match next_field(&v, 0) {
        None => {
            proof {
                lemma_take_fields_none(v@, 2);
            }
            return None;
        },
        Some(ab) => ab,
    };
    let (c, d) = match next_field(&v, b) {
        None => {
            proof {
                lemma_take_fields_none(v@.skip(b as int), 1);
                lemma_take_fields_step(v@, 2, v@.subrange(a as int, b as int), v@.skip(b as int));
            }
            return None;
        },
        Some(cd) => cd,
    };
    proof {
        lemma_take_fields_step(v@.skip(b as int), 1, v@.subrange(c as int, d as int), v@.skip(d as int));
        lemma_take_fields_step(v@, 2, v@.subrange(a as int, b as int), v@.skip(b as int));
        assert(take_fields(v@.skip(d as int), 0) == Some((Seq::<Seq<char>>::empty(), v@.skip(d as int))));
    }
    let first = string_from_chars(&v, a, b);
    let word = chars_of(first.as_str());
    let expected = chars_of("bestmove");
    if !crate::text::chars_equal(&word, &expected) {
        return None;
    }
    Some(string_from_chars(&v, c, d))
}

/// A score an engine reports for its search.
#[derive(Debug, Clone, Copy, PartialEq, Eq, Structural)]
pub enum SearchScore {
    /// In centipawns.
    Cp(i32),
    /// Mate in this many moves (negative: being mated).
    Mate(i32),
}

/// The depth and score of an engine's `info` line.
#[derive(Debug, Clone, Copy, PartialEq, Eq, Structural)]
pub struct SearchInfo {
    pub depth: u32,
    pub score: Option<SearchScore>,
}

/// The white-space separated words of `s`, in order, as `split_whitespace`
/// yields them.
pub open spec fn words(s: Seq<char>) -> Seq<Seq<char>>
    decreases s.len(),
{
    match take_fields(s, 1) {
        Some((f, rest)) => if rest.len() < s.len() {
            seq![f[0]] + words(rest)
        } else {
            seq![]
        },
        None => seq![],
    }
}

/// The word at position `i`, if there is one.
pub open spec fn word_at(w: Seq<Seq<char>>, i: int) -> Option<Seq<char>> {
    if 0 <= i < w.len() {
        Some(w[i])
    } else {
        None
    }
}

/// The `i32` that `s` spells, as the standard `FromStr` for `i32` reads it:
/// an optional sign, then one or more ASCII digits, within range.
pub open spec fn parse_i32(s: Seq<char>) -> Option<i32> {
    if s.len() > 0 && s[0] == '-' {
        let d = s.drop_first();
        if d.len() > 0 && all_digits(d) && digits_value(d) <= 0x8000_0000 {
            Some((0 - digits_value(d)) as i32)
        } else {
            None
        }
    } else {
        match parse_unsigned(s, 0x7fff_ffff) {
            Some(v) => Some(v as i32),
            None => None,
        }
    }
}

/// The `u32` that `s` spells, as the standard `FromStr` for `u32` reads it.
pub open spec fn parse_u32(s: Seq<char>) -> Option<u32> {
    match parse_unsigned(s, 0xffff_ffff) {
        Some(v) => Some(v as u32),
        None => None,
    }
}

/// The score after a `score <kind> <value>` triple: a centipawn or mate
/// score when the kind is `cp` or `mate` and the value reads as an `i32`,
/// else the score before.
pub open spec fn score_after(kind: Option<Seq<char>>, value: Option<i32>, before: Option<SearchScore>) -> Option<SearchScore> {
    match (kind, value) {
        (Some(k), Some(v)) => if k == "cp"@ {
            Some(SearchScore::Cp(v))
        } else if k == "mate"@ {
            Some(SearchScore::Mate(v))
        } else {
            before
        },
        _ => before,
    }
}

/// The depth and score after reading the words `w[i..]` of an `info` line:
/// `depth` takes the next word as the depth (none when it does not read as a
/// `u32`); `score` takes the next two words as kind and value; any other word
/// is passed over.
pub open spec fn info_step(w: Seq<Seq<char>>, i: int, depth: Option<u32>, score: Option<SearchScore>) -> (Option<u32>, Option<SearchScore>)
    decreases w.len() + 3 - i,
{
    if i < 0 || i >= w.len() {
        (depth, score)
    } else if w[i] == "depth"@ {
        let d = match word_at(w, i + 1) {
            Some(t) => parse_u32(t),
            None => None,
        };
        info_step(w, i + 2, d, score)
    } else if w[i] == "score"@ {
        let value = match word_at(w, i + 2) {
            Some(t) => parse_i32(t),
            None => None,
        };
        info_step(w, i + 3, depth, score_after(word_at(w, i + 1), value, score))
    } else {
        info_step(w, i + 1, depth, score)
    }
}

/// What an `info` line reports: the last depth and score it gives, when it
/// gives a depth.
pub open spec fn spec_info(line: Seq<char>) -> Option<SearchInfo> {
    let w = words(line);
    if w.len() == 0 || w[0] != "info"@ {
        None
    } else {
        match info_step(w, 1, None, None) {
            (Some(d), s) => Some(SearchInfo { depth: d, score: s }),
            (None, _) => None,
        }
    }
}

/// `v[a..b]` as its own vector.
fn sub_chars(v: &Vec<char>, a: usize, b: usize) -> (r: Vec<char>)
    requires
        a <= b <= v.len(),
    ensures
        r@ == v@.subrange(a as int, b as int),
{
    let mut r: Vec<char> = Vec::new();
    let mut i = a;
    while i < b
        invariant
            a <= i <= b <= v.len(),
            r@ == v@.subrange(a as int, i as int),
        decreases b - i,
    {
        r.push(v[i]);
        i = i + 1;
        assert(r@ =~= v@.subrange(a as int, i as int));
    }
    r
}

/// Where the words of `v` start and end.
fn word_spans(v: &Vec<char>) -> (r: Vec<(usize, usize)>)
    ensures
        r.len() == words(v@).len(),
        forall|k: int| 0 <= k < r.len() ==> (#[trigger] r@[k]).0 <= r@[k].1 <= v.len()
            && v@.subrange(r@[k].0 as int, r@[k].1 as int) == words(v@)[k],
{
    let mut spans: Vec<(usize, usize)> = Vec::new();
    let mut pos: usize = 0;
    let ghost mut done: Seq<Seq<char>> = seq![];
    assert(v@.skip(0) =~= v@);
    loop
        invariant
            pos <= v.len(),
            spans.len() == done.len(),
            words(v@) == done + words(v@.skip(pos as int)),
            forall|k: int| 0 <= k < spans.len() ==> (#[trigger] spans@[k]).0 <= spans@[k].1 <= v.len()
                && v@.subrange(spans@[k].0 as int, spans@[k].1 as int) == done[k],
        decreases v.len() - pos,
    {
        match next_field(v, pos) {
            None => {
                assert(words(v@.skip(pos as int)) == Seq::<Seq<char>>::empty());
                assert(done + Seq::<Seq<char>>::empty() =~= done);
                return spans;
            },
            Some((a, b)) => {
                let ghost w = v@.subrange(a as int, b as int);
                assert(v@.skip(b as int).len() < v@.skip(pos as int).len());
                assert(seq![w][0] == w);
                assert(words(v@.skip(pos as int)) == seq![w] + words(v@.skip(b as int)));
                assert(done + (seq![w] + words(v@.skip(b as int))) =~= done.push(w) + words(v@.skip(b as int)));
                proof {
                    done = done.push(w);
                }
                spans.push((a, b));
                pos = b;
            },
        }
    }
}

/// Reads `s` as the standard `FromStr` for `i32` would.
fn parse_i32_chars(s: &Vec<char>) -> (r: Option<i32>)
    ensures
        r == parse_i32(s@),
{
    if s.len() > 0 && s[0] == '-' {
        let rest = sub_chars(s, 1, s.len());
        assert(rest@ =~= s@.drop_first());
        if rest.len() == 0 {
            return None;
        }
        if rest[0] == '+' {
            assert(!is_digit(rest@[0]));
            return None;
        }
        assert(sign_stripped(rest@) == rest@);
        match parse_unsigned_chars(&rest, 0x8000_0000) {
            None => None,
            Some(v) => {
                if v == 0x8000_0000 {
                    Some(i32::MIN)
                } else {
                    Some(-(v as i32))
                }
            },
        }
    } else {
        match parse_unsigned_chars(s, 0x7fff_ffff) {
            None => None,
            Some(v) => Some(v as i32),
        }
    }
}

/// The word of `v` at position `k` of `spans`, if there is one.
fn word_chars(v: &Vec<char>, spans: &Vec<(usize, usize)>, k: usize) -> (r: Option<Vec<char>>)
    requires
        spans.len() == words(v@).len(),
        forall|j: int| 0 <= j < spans.len() ==> (#[trigger] spans@[j]).0 <= spans@[j].1 <= v.len()
            && v@.subrange(spans@[j].0 as int, spans@[j].1 as int) == words(v@)[j],
    ensures
        match word_at(words(v@), k as int) {
            Some(t) => r matches Some(c) && c@ == t,
            None => r is None,
        },
{
    if k < spans.len() {
        let (a, b) = spans[k];
        assert(spans@[k as int] == (a, b));
        Some(sub_chars(v, a, b))
    } else {
        None
    }
}

/// Reads the depth and score of an `info` line such as
/// `info depth 12 score cp 34 nodes 5000 pv e2e4`.
pub fn parse_info(line: &str) -> (r: Option<SearchInfo>)
    ensures
        r == spec_info(line@),
{
    let v = chars_of(line);
    let spans = word_spans(&v);
    let ghost w = words(v@);
    let info_word = chars_of("info");
    let depth_word = chars_of("depth");
    let score_word = chars_of("score");
    let cp_word = chars_of("cp");
    let mate_word = chars_of("mate");
    let first = match word_chars(&v, &spans, 0) {
        None => return None,
        Some(f) => f,
    };
    if !crate::text::chars_equal(&first, &info_word) {
        return None;
    }
    let mut depth: Option<u32> = None;
    let mut score: Option<SearchScore> = None;
    let mut i: usize = 1;
    while i < spans.len()
        invariant
            1 <= i <= spans.len(),
            w == words(v@),
            spans.len() == w.len(),
            forall|j: int| 0 <= j < spans.len() ==> (#[trigger] spans@[j]).0 <= spans@[j].1 <= v.len()
                && v@.subrange(spans@[j].0 as int, spans@[j].1 as int) == w[j],
            depth_word@ == "depth"@,
            score_word@ == "score"@,
            cp_word@ == "cp"@,
            mate_word@ == "mate"@,
            info_step(w, 1, None, None) == info_step(w, i as int, depth, score),
        decreases spans.len() - i,
    {
        let ghost i0 = i as int;
        let ghost d0 = depth;
        let ghost s0 = score;
        let word = match word_chars(&v, &spans, i) {
            Some(c) => c,
            None => {
                assert(false);
                return None;
            },
        };
        if crate::text::chars_equal(&word, &depth_word) {
            depth = match word_chars(&v, &spans, i + 1) {
                Some(t) => parse_unsigned_chars(&t, 0xffff_ffff),
                None => None,
            };
            i = if spans.len() - i >= 2 { i + 2 } else { spans.len() };
            assert(info_step(w, i0, d0, s0) == info_step(w, i0 + 2, depth, score));
            assert(info_step(w, i0 + 2, depth, score) == info_step(w, i as int, depth, score));
        } else if crate::text::chars_equal(&word, &score_word) {
            let kind = word_chars(&v, &spans, i + 1);
            let value = if spans.len() - i > 2 {
                match word_chars(&v, &spans, i + 2) {
                    Some(t) => parse_i32_chars(&t),
                    None => None,
                }
            } else {
                None
            };
            assert(value == match word_at(w, i0 + 2) {
                Some(t) => parse_i32(t),
                None => None::<i32>,
            });
            score = match (kind, value) {
                (Some(k), Some(val)) => {
                    if crate::text::chars_equal(&k, &cp_word) {
                        Some(SearchScore::Cp(val))
                    } else if crate::text::chars_equal(&k, &mate_word) {
                        Some(SearchScore::Mate(val))
                    } else {
                        score
                    }
                },
                _ => score,
            };
            assert(score == score_after(word_at(w, i0 + 1), value, s0));
            i = if spans.len() - i >= 3 { i + 3 } else { spans.len() };
            assert(info_step(w, i0, d0, s0) == info_step(w, i0 + 3, depth, score));
            assert(info_step(w, i0 + 3, depth, score) == info_step(w, i as int, depth, score));
        } else {
            assert(word@ != "depth"@ && word@ != "score"@);
            i = i + 1;
        }
    }
    match depth {
        Some(d) => Some(SearchInfo { depth: d, score }),
        None => None,
    }
}

/// Whether `f` and `r` name a square, such as `e` and `4`.
pub open spec fn is_square(f: char, r: char) -> bool {
    'a' <= f <= 'h' && '1' <= r <= '8'
}

/// Whether text has the shape of a UCI move: two squares, and for a
/// promotion a piece letter `q`, `r`, `b` or `n`.
pub open spec fn spec_move_shape(m: Seq<char>) -> bool {
    &&& m.len() == 4 || m.len() == 5
    &&& is_square(m[0], m[1])
    &&& is_square(m[2], m[3])
    &&& m.len() == 5 ==> (m[4] == 'q' || m[4] == 'r' || m[4] == 'b' || m[4] == 'n')
}

/// Whether `mv` has the shape of a UCI move such as `e2e4` or `e7e8q`.
pub fn is_valid_move(mv: &str) -> (r: bool)
    ensures
        r == spec_move_shape(mv@),
{
    let m = chars_of(mv);
    if m.len() != 4 && m.len() != 5 {
        return false;
    }
    let square = ('a' <= m[0] && m[0] <= 'h' && '1' <= m[1] && m[1] <= '8') && ('a' <= m[2] && m[2] <= 'h'
        && '1' <= m[3] && m[3] <= '8');
    if !square {
        return false;
    }
    if m.len() == 5 {
        let p = m[4];
        p == 'q' || p == 'r' || p == 'b' || p == 'n'
    } else {
        true
    }
}

/// The words `ws` joined by single spaces.
pub open spec fn join_words(ws: Seq<Seq<char>>) -> Seq<char>
    decreases ws.len(),
{
    if ws.len() == 0 {
        seq![]
    } else if ws.len() == 1 {
        ws[0]
    } else {
        join_words(ws.drop_last()) + " "@ + ws.last()
    }
}

/// The position an opening sets up: `startpos` for the standard start, else
/// `fen <opening>`.
pub open spec fn spec_position_argument(opening: Seq<char>) -> Seq<char> {
    if opening == "startpos"@ {
        "startpos"@
    } else {
        "fen "@ + opening
    }
}

/// The position an opening sets up in a `position` command.
pub fn position_argument(opening: &str) -> (r: String)
    ensures
        r@ == spec_position_argument(opening@),
{
    let start = chars_of("startpos");
    if crate::text::chars_equal(&chars_of(opening), &start) {
        "startpos".to_owned()
    } else {
        let mut r = "fen ".to_owned();
        r.append(opening);
        r
    }
}

/// The `position` command for `position` after the moves `moves`.
pub open spec fn spec_position_command(position: Seq<char>, moves: Seq<Seq<char>>) -> Seq<char> {
    "position "@ + position + if moves.len() == 0 {
        Seq::<char>::empty()
    } else {
        " moves "@ + join_words(moves)
    }
}

/// The `position` command that sets up `position` and plays `moves`.
pub fn position_command(position: &str, moves: &Vec<String>) -> (r: String)
    ensures
        r@ == spec_position_command(position@, moves@.map_values(|m: String| m@)),
{
    let ghost mv = moves@.map_values(|m: String| m@);
    let mut r = "position ".to_owned();
    r.append(position);
    if moves.len() == 0 {
        assert(r@ =~= spec_position_command(position@, mv));
        return r;
    }
    let ghost head = r@;
    r.append(" moves ");
    r.append(moves[0].as_str());
    let mut k: usize = 1;
    assert(mv.take(1) =~= seq![mv[0]]);
    while k < moves.len()
        invariant
            1 <= k <= moves.len(),
            mv == moves@.map_values(|m: String| m@),
            r@ == head + " moves "@ + join_words(mv.take(k as int)),
        decreases moves.len() - k,
    {
        r.append(" ");
        r.append(moves[k].as_str());
        assert(mv.take(k + 1).drop_last() =~= mv.take(k as int));
        assert(mv.take(k + 1).last() == moves@[k as int]@);
        k = k + 1;
    }
    assert(mv.take(moves.len() as int) =~= mv);
    r
}

/// The `go` command for a search on the clock.
pub open spec fn spec_go_clock(wtime: nat, btime: nat, winc: nat, binc: nat) -> Seq<char> {
    "go wtime "@ + decimal(wtime) + " btime "@ + decimal(btime) + " winc "@ + decimal(winc) + " binc "@ + decimal(binc)
}

/// The `go` command for a search on the clock.
pub fn go_clock_command(wtime: u64, btime: u64, winc: u64, binc: u64) -> (r: String)
    ensures
        r@ == spec_go_clock(wtime as nat, btime as nat, winc as nat, binc as nat),
{
    let mut r = "go wtime ".to_owned();
    push_decimal(&mut r, wtime);
    r.append(" btime ");
    push_decimal(&mut r, btime);
    r.append(" winc ");
    push_decimal(&mut r, winc);
    r.append(" binc ");
    push_decimal(&mut r, binc);
    r
}

/// The `go` command for a search of `nodes` nodes.
pub fn go_nodes_command(nodes: u64) -> (r: String)
    ensures
        r@ == "go nodes "@ + decimal(nodes as nat),
{
    let mut r = "go nodes ".to_owned();
    push_decimal(&mut r, nodes);
    r
}

/// The `setoption` command that sets option `name` to `value`.
pub fn setoption_command(name: &str, value: &str) -> (r: String)
    ensures
        r@ == "setoption name "@ + name@ + " value "@ + value@,
{
    let mut r = "setoption name ".to_owned();
    r.append(name);
    r.append(" value ");
    r.append(value);
    r
}

/// Whether a `bestmove` answer plays a move: not `(none)` nor the null
/// move `0000`.
pub fn plays_a_move(bestmove: &str) -> (r: bool)
    ensures
        r == (bestmove@ != "(none)"@ && bestmove@ != "0000"@),
{
    let m = chars_of(bestmove);
    !crate::text::chars_equal(&m, &chars_of("(none)")) && !crate::text::chars_equal(&m, &chars_of("0000"))
}

} // verus!
