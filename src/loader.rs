use vstd::prelude::*;
use vstd::string::StringSliceAdditionalSpecFns;

use crate::error::GameError;
use crate::grid::{
    cell, dead_grid, grid_wf, height_of, in_world, out_of_bounds, width_of, with_cell, GameState,
};

verus! {

pub const NEWLINE: u8 = 10;

pub const RETURN: u8 = 13;

pub const COMMA: u8 = 44;

pub const PLUS: u8 = 43;

pub const ZERO: u8 = 48;

pub const NINE: u8 = 57;

/// The length of `t` once its trailing line endings are removed; a line
/// ending is a newline, or a carriage return followed by a newline.
pub open spec fn trimmed_len(t: Seq<u8>) -> nat
    decreases t.len(),
{
    if t.len() > 0 && t.last() == NEWLINE {
        let u = t.drop_last();
        if u.len() > 0 && u.last() == RETURN {
            trimmed_len(u.drop_last())
        } else {
            trimmed_len(u)
        }
    } else {
        t.len()
    }
}

/// `t` cut at each newline byte; `n` newlines give `n + 1` lines.
pub open spec fn split_lines(t: Seq<u8>) -> Seq<Seq<u8>>
    decreases t.len(),
{
    if t.len() == 0 {
        seq![Seq::empty()]
    } else {
        let before = split_lines(t.drop_last());
        if t.last() == NEWLINE {
            before.push(Seq::empty())
        } else {
            before.update(before.len() - 1, before.last().push(t.last()))
        }
    }
}

/// A line without its final carriage return, if it has one.
pub open spec fn strip_return(line: Seq<u8>) -> Seq<u8> {
    if line.len() > 0 && line.last() == RETURN {
        line.drop_last()
    } else {
        line
    }
}

/// The records of an initial-state text: the lines of what is left once
/// trailing line endings are removed. A line that a newline ends loses the
/// carriage return before it; the last line keeps all its bytes. A text made
/// of line endings alone has no record.
pub open spec fn records(t: Seq<u8>) -> Seq<Seq<u8>> {
    if trimmed_len(t) == 0 {
        Seq::empty()
    } else {
        let lines = split_lines(t.take(trimmed_len(t) as int));
        Seq::new(
            lines.len(),
            |i: int|
                if i < lines.len() - 1 {
                    strip_return(lines[i])
                } else {
                    lines[i]
                },
        )
    }
}

pub open spec fn is_digit(c: u8) -> bool {
    ZERO <= c <= NINE
}

/// The value of a string of decimal digits.
pub open spec fn digits_value(s: Seq<u8>) -> nat
    decreases s.len(),
{
    if s.len() == 0 {
        0
    } else {
        digits_value(s.drop_last()) * 10 + (s.last() - ZERO) as nat
    }
}

/// The digits of a field: what follows its `+` sign, if it has one.
pub open spec fn unsigned_part(s: Seq<u8>) -> Seq<u8> {
    if s.len() > 0 && s[0] == PLUS {
        s.skip(1)
    } else {
        s
    }
}

/// A field holds a number when it is one or more decimal digits, after an
/// optional `+` sign, whose value fits in `usize`.
pub open spec fn field_number(s: Seq<u8>) -> Option<usize> {
    let d = unsigned_part(s);
    if d.len() > 0 && (forall|i: int| 0 <= i < d.len() ==> is_digit(#[trigger] d[i]))
        && digits_value(d) <= usize::MAX {
        Some(digits_value(d) as usize)
    } else {
        None
    }
}

/// The comma at `p` parts `s` into two numbers.
pub open spec fn is_split(s: Seq<u8>, p: int) -> bool {
    &&& 0 <= p < s.len()
    &&& s[p] == COMMA
    &&& field_number(s.take(p)) is Some
    &&& field_number(s.skip(p + 1)) is Some
}

/// A record is a pair `a,b`: exactly two comma-separated numbers.
pub open spec fn record_pair(s: Seq<u8>) -> Option<(usize, usize)> {
    if exists|p: int| is_split(s, p) {
        let p = choose|p: int| is_split(s, p);
        Some((field_number(s.take(p)).unwrap(), field_number(s.skip(p + 1)).unwrap()))
    } else {
        None
    }
}

/// The first record gives the board's size: a dead board of that size.
pub open spec fn header_board(record: Seq<u8>) -> Result<Seq<Seq<bool>>, GameError> {
    match record_pair(record) {
        None => Err(GameError::InvalidFormat),
        Some((w, h)) => if w == 0 || h == 0 {
            Err(GameError::InvalidDimensions)
        } else {
            Ok(dead_grid(w as nat, h as nat))
        },
    }
}

/// Each later record names a cell of `g` that becomes live.
pub open spec fn place_cell(g: Seq<Seq<bool>>, record: Seq<u8>) -> Result<
    Seq<Seq<bool>>,
    GameError,
> {
    match record_pair(record) {
        None => Err(GameError::InvalidFormat),
        Some((x, y)) => if in_world(g, x as int, y as int) {
            Ok(with_cell(g, x as int, y as int, true))
        } else {
            Err(out_of_bounds(g, x, y))
        },
    }
}

/// The records taken in order: the first gives the board, the others live
/// cells; the first record that fails ends the load with its error.
pub open spec fn load_records(recs: Seq<Seq<u8>>) -> Result<Seq<Seq<bool>>, GameError>
    decreases recs.len(),
{
    if recs.len() == 0 {
        Err(GameError::EmptyInput)
    } else if recs.len() == 1 {
        header_board(recs[0])
    } else {
        match load_records(recs.drop_last()) {
            Err(e) => Err(e),
            Ok(g) => place_cell(g, recs.last()),
        }
    }
}

/// The board that an initial-state text describes, or the error that
/// loading it ends with.
pub open spec fn load(t: Seq<u8>) -> Result<Seq<Seq<bool>>, GameError> {
    load_records(records(t))
}

/// Some record after the first names `(x, y)`.
pub open spec fn named_cell(recs: Seq<Seq<u8>>, x: usize, y: usize) -> bool {
    exists|i: int| 1 <= i < recs.len() && record_pair(#[trigger] recs[i]) == Some((x, y))
}

/// The board of a successful load has the size that the first record gives.
proof fn lemma_loaded_shape(recs: Seq<Seq<u8>>)
    requires
        load_records(recs) is Ok,
    ensures
        recs.len() >= 1,
        record_pair(recs[0]) is Some,
        grid_wf(load_records(recs)->Ok_0),
        width_of(load_records(recs)->Ok_0) == (record_pair(recs[0])->Some_0).0,
        height_of(load_records(recs)->Ok_0) == (record_pair(recs[0])->Some_0).1,
    decreases recs.len(),
{
    if recs.len() > 1 {
        let before = recs.drop_last();
        lemma_loaded_shape(before);
        let g0 = load_records(before)->Ok_0;
        let g = load_records(recs)->Ok_0;
        assert(forall|j: int| 0 <= j < g.len() ==> #[trigger] g[j].len() == g0[j].len());
    }
}

/// A cell of a successful load is live exactly when a later record names it.
proof fn lemma_loaded_cell(recs: Seq<Seq<u8>>, x: usize, y: usize)
    requires
        load_records(recs) is Ok,
    ensures
        cell(load_records(recs)->Ok_0, x as int, y as int) == named_cell(recs, x, y),
    decreases recs.len(),
{
    lemma_loaded_shape(recs);
    if recs.len() > 1 {
        let before = recs.drop_last();
        lemma_loaded_shape(before);
        lemma_loaded_cell(before, x, y);
        let (x0, y0) = record_pair(recs.last())->Some_0;
        if named_cell(before, x, y) {
            let i = choose|i: int| 1 <= i < before.len() && record_pair(#[trigger] before[i]) == Some((x, y));
            assert(recs[i] == before[i]);
        }
        if x == x0 && y == y0 {
            assert(record_pair(recs[recs.len() - 1]) == Some((x, y)));
        }
        if named_cell(recs, x, y) {
            let i = choose|i: int| 1 <= i < recs.len() && record_pair(#[trigger] recs[i]) == Some((x, y));
            if i < recs.len() - 1 {
                assert(before[i] == recs[i]);
            }
        }
    }
}

/// What a successful load holds: a board of the size that the first record
/// gives, whose live cells are exactly those that the later records name.
pub proof fn lemma_loaded_board(recs: Seq<Seq<u8>>)
    requires
        load_records(recs) is Ok,
    ensures
        recs.len() >= 1,
        record_pair(recs[0]) is Some,
        grid_wf(load_records(recs)->Ok_0),
        width_of(load_records(recs)->Ok_0) == (record_pair(recs[0])->Some_0).0,
        height_of(load_records(recs)->Ok_0) == (record_pair(recs[0])->Some_0).1,
        forall|x: usize, y: usize|
            #[trigger] cell(load_records(recs)->Ok_0, x as int, y as int) == named_cell(recs, x, y),
{
    lemma_loaded_shape(recs);
    assert forall|x: usize, y: usize|
        #[trigger] cell(load_records(recs)->Ok_0, x as int, y as int) == named_cell(recs, x, y) by {
        lemma_loaded_cell(recs, x, y);
    }
}

/// The board that a load result holds, or its error.
pub open spec fn board_of(r: Result<GameState, GameError>) -> Result<Seq<Seq<bool>>, GameError> {
    match r {
        Ok(g) => Ok(g@),
        Err(e) => Err(e),
    }
}

/// A string of digits is worth at least any of its prefixes.
proof fn lemma_digits_value_prefix(s: Seq<u8>, k: int)
    requires
        0 <= k <= s.len(),
        forall|i: int| 0 <= i < s.len() ==> is_digit(#[trigger] s[i]),
    ensures
        digits_value(s.take(k)) <= digits_value(s),
    decreases s.len(),
{
    if k < s.len() {
        assert(s.drop_last().take(k) =~= s.take(k));
        assert(forall|i: int| 0 <= i < s.drop_last().len() ==> #[trigger] s.drop_last()[i] == s[i]);
        lemma_digits_value_prefix(s.drop_last(), k);
    } else {
        assert(s.take(k) =~= s);
    }
}

/// The value of a decimal field, or `None` where `field` has no digit after
/// its optional `+` sign, holds another byte, or is too large for `usize`.
fn parse_number(field: &[u8]) -> (r: Option<usize>)
    ensures
        r == field_number(field@),
{
    let digits = parse_digits(if field.len() > 0 && field[0] == PLUS {
        &field[1..field.len()]
    } else {
        field
    });
    proof {
        if field@.len() > 0 && field@[0] == PLUS {
            assert(field@.subrange(1, field@.len() as int) =~= field@.skip(1));
        }
    }
    digits
}

/// The value of a string of one or more decimal digits that fits in `usize`,
/// or `None`.
fn parse_digits(field: &[u8]) -> (r: Option<usize>)
    ensures
        r == (if field@.len() > 0 && (forall|i: int|
            0 <= i < field@.len() ==> is_digit(#[trigger] field@[i])) && digits_value(field@)
            <= usize::MAX {
            Some(digits_value(field@) as usize)
        } else {
            None
        }),
{
    if field.len() == 0 {
        return None;
    }
    let mut value: usize = 0;
    let mut i: usize = 0;
    while i < field.len()
        invariant
            0 < field@.len(),
            i <= field@.len(),
            forall|j: int| 0 <= j < i ==> is_digit(#[trigger] field@[j]),
            value == digits_value(field@.take(i as int)),
        decreases field@.len() - i,
    {
        let c = field[i];
        if c < ZERO || c > NINE {
            assert(!is_digit(field@[i as int]));
            return None;
        }
        let d = (c - ZERO) as usize;
        assert(field@.take(i + 1).drop_last() =~= field@.take(i as int));
        if value > (usize::MAX - d) / 10 {
            assert(value * 10 + d > usize::MAX) by (nonlinear_arith)
                requires
                    value > (usize::MAX - d) / 10,
                    d <= 9,
            ;
            proof {
                if forall|j: int| 0 <= j < field@.len() ==> is_digit(#[trigger] field@[j]) {
                    lemma_digits_value_prefix(field@, i + 1);
                }
            }
            return None;
        }
        assert(value * 10 + d <= usize::MAX) by (nonlinear_arith)
            requires
                value <= (usize::MAX - d) / 10,
                d <= 9,
        ;
        value = value * 10 + d;
        i = i + 1;
    }
    assert(field@.take(i as int) =~= field@);
    Some(value)
}

/// Only the first comma of a record can part it into two numbers: the
/// digits before a split hold no comma.
proof fn lemma_split_at_first_comma(s: Seq<u8>, first: int, p: int)
    requires
        0 <= first < s.len(),
        s[first] == COMMA,
        forall|q: int| 0 <= q < first ==> s[q] != COMMA,
        is_split(s, p),
    ensures
        p == first,
{
    if first < p {
        assert(s.take(p)[first] == COMMA);
        if first > 0 {
            assert(s.take(p).skip(1)[first - 1] == COMMA);
        }
    }
}

/// Reads the initial-state text format into a board.
pub struct GameStateBuilder;

impl GameStateBuilder {
    /// A record `x,y`: the pair it holds, or `InvalidFormat`.
    fn parse_coordinate(coord: &[u8]) -> (r: Result<(usize, usize), GameError>)
        ensures
            r == match record_pair(coord@) {
                Some(pair) => Ok::<(usize, usize), GameError>(pair),
                None => Err(GameError::InvalidFormat),
            },
    {
        let mut comma: usize = 0;
        while comma < coord.len() && coord[comma] != COMMA
            invariant
                comma <= coord@.len(),
                forall|q: int| 0 <= q < comma ==> coord@[q] != COMMA,
            decreases coord@.len() - comma,
        {
            comma = comma + 1;
        }
        if comma == coord.len() {
            assert(!exists|p: int| is_split(coord@, p));
            return Err(GameError::InvalidFormat);
        }
        let x = parse_number(&coord[0..comma]);
        let y = parse_number(&coord[comma + 1..coord.len()]);
        assert(coord@.subrange(0, comma as int) =~= coord@.take(comma as int));
        assert(coord@.subrange(comma + 1, coord@.len() as int) =~= coord@.skip(comma + 1));
        match (x, y) {
            (Some(x), Some(y)) => {
                assert(is_split(coord@, comma as int));
                let ghost p = choose|p: int| is_split(coord@, p);
                proof {
                    lemma_split_at_first_comma(coord@, comma as int, p);
                }
                Ok((x, y))
            },
            _ => {
                assert forall|p: int| !is_split(coord@, p) by {
                    if is_split(coord@, p) {
                        lemma_split_at_first_comma(coord@, comma as int, p);
                    }
                }
                Err(GameError::InvalidFormat)
            },
        }
    }

    /// A line without its final carriage return, if it has one.
    fn record_of(line: &[u8]) -> (r: &[u8])
        ensures
            r@ == strip_return(line@),
    {
        if line.len() > 0 && line[line.len() - 1] == RETURN {
            &line[0..line.len() - 1]
        } else {
            line
        }
    }

    /// Folds one record into the load so far: the first record makes the
    /// board, each later one makes a cell live; an earlier error stays.
    fn take_record(loaded: Result<GameState, GameError>, first: bool, record: &[u8]) -> (r: Result<
        GameState,
        GameError,
    >)
        requires
            loaded matches Ok(g) ==> g.wf(),
        ensures
            r matches Ok(g) ==> g.wf(),
            first ==> board_of(r) == header_board(record@),
            !first ==> board_of(r) == match board_of(loaded) {
                Err(e) => Err(e),
                Ok(g) => place_cell(g, record@),
            },
    {
        if first {
            match Self::parse_coordinate(record) {
                Err(e) => Err(e),
                Ok((width, height)) => GameState::new(width, height),
            }
        } else {
            match loaded {
                Err(e) => Err(e),
                Ok(mut g) => match Self::parse_coordinate(record) {
                    Err(e) => Err(e),
                    Ok((x, y)) => match g.set_cell_state(x, y, true) {
                        Ok(()) => Ok(g),
                        Err(e) => Err(e),
                    },
                },
            }
        }
    }

    /// Loads an initial-state text given as bytes: the board it describes,
    /// or the error of its first record that fails.
    pub fn from_bytes(text: &[u8]) -> (r: Result<GameState, GameError>)
        ensures
            board_of(r) == load(text@),
            r matches Ok(g) ==> g.wf(),
    {
        let mut end: usize = text.len();
        assert(text@.take(end as int) =~= text@);
        while end > 0 && text[end - 1] == NEWLINE
            invariant
                end <= text@.len(),
                trimmed_len(text@.take(end as int)) == trimmed_len(text@),
            decreases end,
        {
            assert(text@.take(end as int).drop_last() =~= text@.take(end - 1));
            end = end - 1;
            if end > 0 && text[end - 1] == RETURN {
                assert(text@.take(end as int).drop_last() =~= text@.take(end - 1));
                end = end - 1;
            }
        }
        if end == 0 {
            return Err(GameError::EmptyInput);
        }
        let mut loaded: Result<GameState, GameError> = Err(GameError::EmptyInput);
        let mut first = true;
        let mut start: usize = 0;
        let mut i: usize = 0;
        let ghost mut done: Seq<Seq<u8>> = Seq::empty();
        assert(text@.take(0) =~= Seq::<u8>::empty());
        assert(text@.subrange(0, 0) =~= Seq::<u8>::empty());
        assert(done.map_values(|l: Seq<u8>| strip_return(l)) =~= Seq::<Seq<u8>>::empty());
        while i < end
            invariant
                end <= text@.len(),
                trimmed_len(text@) == end,
                start <= i <= end,
                first == (done.len() == 0),
                split_lines(text@.take(i as int)) == done.push(text@.subrange(start as int, i as int)),
                board_of(loaded) == load_records(done.map_values(|l: Seq<u8>| strip_return(l))),
                loaded matches Ok(g) ==> g.wf(),
            decreases end - i,
        {
            let ghost cur = text@.subrange(start as int, i as int);
            assert(text@.take(i + 1).drop_last() =~= text@.take(i as int));
            if text[i] == NEWLINE {
                let record = Self::record_of(&text[start..i]);
                loaded = Self::take_record(loaded, first, record);
                proof {
                    let recs = done.map_values(|l: Seq<u8>| strip_return(l));
                    lemma_load_records_push(recs, strip_return(cur));
                    assert(done.push(cur).map_values(|l: Seq<u8>| strip_return(l)) =~= recs.push(
                        strip_return(cur),
                    ));
                    done = done.push(cur);
                }
                assert(text@.subrange(i + 1, i + 1) =~= Seq::<u8>::empty());
                first = false;
                start = i + 1;
            } else {
                assert(cur.push(text@[i as int]) =~= text@.subrange(start as int, i + 1));
                assert(done.push(cur).update(done.len() as int, cur.push(text@[i as int])) =~= done.push(
                    text@.subrange(start as int, i + 1),
                ));
            }
            i = i + 1;
        }
        let ghost cur = text@.subrange(start as int, end as int);
        loaded = Self::take_record(loaded, first, &text[start..end]);
        proof {
            let recs = done.map_values(|l: Seq<u8>| strip_return(l));
            lemma_load_records_push(recs, cur);
            assert(records(text@) =~= recs.push(cur));
        }
        loaded
    }

    /// Loads an initial-state text: the board it describes, or the error of
    /// its first record that fails.
    pub fn from_text(text: &str) -> (r: Result<GameState, GameError>)
        ensures
            board_of(r) == load(text.spec_bytes()),
            r matches Ok(g) ==> g.wf(),
    {
        GameStateBuilder::from_bytes(text.as_bytes())
    }
}

/// Loading one more record: it folds into what the earlier records loaded.
proof fn lemma_load_records_push(recs: Seq<Seq<u8>>, record: Seq<u8>)
    ensures
        recs.len() == 0 ==> load_records(recs.push(record)) == header_board(record),
        recs.len() > 0 ==> load_records(recs.push(record)) == match load_records(recs) {
            Err(e) => Err(e),
            Ok(g) => place_cell(g, record),
        },
{
    assert(recs.push(record).drop_last() =~= recs);
}

} // verus!
